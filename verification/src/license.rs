//! License bookkeeping decisions: what the stored settings mean, what an
//! activation response writes back, and how a remote refresh adjusts them.
//! The settings store and the network live outside the library; everything
//! here computes from the setting values as plain strings and the clock
//! reading handed in.

use vstd::prelude::*;
use crate::store::ts_ok;
use crate::time::{format_rfc3339_ms, parse_rfc3339_ms, rfc3339_ms_of, rfc3339_of};

verus! {

/// The settings the license and authentication bookkeeping reads and
/// writes, by name.
#[derive(Clone, Copy, PartialEq, Eq, Structural, Debug)]
pub enum SettingKey {
    LicenseKey,
    LicenseToken,
    LicenseExpiresAt,
    LicensePlan,
    TrialStartDate,
    LicenseLastSeenDate,
    LocalPasswordHash,
    SchoolId,
    SchoolName,
    SchoolCity,
    SchoolPobox,
}

/// The name a setting is stored under.
pub open spec fn spec_setting_name(k: SettingKey) -> Seq<char> {
    match k {
        SettingKey::LicenseKey => "license_key"@,
        SettingKey::LicenseToken => "license_token"@,
        SettingKey::LicenseExpiresAt => "license_expires_at"@,
        SettingKey::LicensePlan => "license_plan"@,
        SettingKey::TrialStartDate => "trial_start_date"@,
        SettingKey::LicenseLastSeenDate => "license_last_seen_date"@,
        SettingKey::LocalPasswordHash => "local_password_hash"@,
        SettingKey::SchoolId => "school_id"@,
        SettingKey::SchoolName => "school_name"@,
        SettingKey::SchoolCity => "school_city"@,
        SettingKey::SchoolPobox => "school_pobox"@,
    }
}

/// Renders a setting key as its stored name.
pub fn setting_name(k: SettingKey) -> (r: String)
    ensures
        r@ == spec_setting_name(k),
{
    let r: &'static str = match k {
        SettingKey::LicenseKey => "license_key",
        SettingKey::LicenseToken => "license_token",
        SettingKey::LicenseExpiresAt => "license_expires_at",
        SettingKey::LicensePlan => "license_plan",
        SettingKey::TrialStartDate => "trial_start_date",
        SettingKey::LicenseLastSeenDate => "license_last_seen_date",
        SettingKey::LocalPasswordHash => "local_password_hash",
        SettingKey::SchoolId => "school_id",
        SettingKey::SchoolName => "school_name",
        SettingKey::SchoolCity => "school_city",
        SettingKey::SchoolPobox => "school_pobox",
    };
    r.to_owned()
}

/// The current standing of this device's license.
pub struct LicenseInfo {
    pub active: bool,
    pub is_trial: bool,
    pub days_remaining: i64,
    pub expires_at: String,
    pub is_expired: bool,
    pub is_blocked: bool,
    pub clock_tampered: bool,
    pub key: Option<String>,
    pub hwid: String,
    pub plan: String,
}

/// The school this device is linked to.
pub struct SchoolInfo {
    pub id: String,
    pub name: String,
    pub city: String,
    pub pobox: Option<String>,
}

/// The remote's answer to an activation attempt.
pub struct ActivationResult {
    pub success: bool,
    pub error: Option<String>,
    pub token: Option<String>,
    pub expires_at: Option<String>,
    pub plan: Option<String>,
    pub school: Option<SchoolInfo>,
}

/// The trial period, in milliseconds.
pub open spec fn trial_period_ms() -> int {
    (14 * 86_400_000) as int
}

/// The clock-tampering allowance: the clock may lag the last seen time by
/// up to five minutes before it counts as tampered.
pub open spec fn tamper_slack_ms() -> int {
    300_000 as int
}

/// Whether a clock reading counts as tampered against the stored last-seen
/// value: it does when the stored value parses and the clock is more than
/// the allowance behind it.
pub open spec fn spec_clock_tampered(last_seen: Option<String>, now: i64) -> bool {
    match last_seen {
        Some(s) => match rfc3339_ms_of(s@) {
            Some(ls) => now < ls - tamper_slack_ms(),
            None => false,
        },
        None => false,
    }
}

/// When the license expires, in epoch milliseconds: a licensed device goes
/// by its stored expiry (falling back to `now` when unreadable); an
/// unlicensed one by its trial start plus the trial period (falling back to
/// a trial starting `now`).
pub open spec fn spec_expires_ms(
    license_key: Option<String>,
    expires_at: Option<String>,
    trial_start: Option<String>,
    now: i64,
) -> int {
    if license_key is Some && expires_at is Some {
        match rfc3339_ms_of(expires_at->Some_0@) {
            Some(e) => e as int,
            None => now as int,
        }
    } else {
        (match trial_start {
            Some(t) => match rfc3339_ms_of(t@) {
                Some(v) => v as int,
                None => now as int,
            },
            None => now as int,
        }) + trial_period_ms()
    }
}

/// Computes the license standing from the stored settings and a clock
/// reading, and decides the last-seen write-back: the clock reading is
/// recorded unless it counts as tampered.
pub fn compute_license_info(
    license_key: Option<String>,
    expires_at_str: Option<String>,
    trial_start_str: Option<String>,
    last_seen_str: Option<String>,
    plan_str: Option<String>,
    hwid: String,
    now: i64,
) -> (r: (LicenseInfo, Option<String>))
    requires
        ts_ok(now),
    ensures
        ({
            let tampered = spec_clock_tampered(last_seen_str, now);
            let expires = spec_expires_ms(license_key, expires_at_str, trial_start_str, now);
            let diff = expires - now;
            &&& r.0.clock_tampered == tampered
            &&& r.0.is_trial == !(license_key is Some && expires_at_str is Some)
            &&& r.0.is_expired == (diff <= 0)
            &&& r.0.days_remaining == (if diff <= 0 {
                0
            } else {
                diff / 86_400_000
            })
            &&& r.0.active == (license_key is Some && diff > 0 && !tampered)
            &&& r.0.is_blocked == (diff <= 0 || tampered)
            &&& r.0.expires_at@ == rfc3339_of(expires as i64)
            &&& r.0.key == license_key
            &&& r.0.hwid == hwid
            &&& (plan_str matches Some(p) ==> r.0.plan == p)
            &&& (plan_str is None ==> r.0.plan@ == "TRIAL"@)
            &&& (tampered ==> r.1 is None)
            &&& (!tampered ==> (r.1 matches Some(s) && s@ == rfc3339_of(now)))
        }),
{
    let tampered = match &last_seen_str {
        Some(s) => match parse_rfc3339_ms(s.as_str()) {
            Some(ls) => now < ls - 300_000,
            None => false,
        },
        None => false,
    };
    let last_seen_write = if tampered {
        None
    } else {
        Some(format_rfc3339_ms(now))
    };
    let is_trial = !(license_key.is_some() && expires_at_str.is_some());
    let expires_ms: i64 = if !is_trial {
        let e = match &expires_at_str {
            Some(s) => parse_rfc3339_ms(s.as_str()),
            None => None,
        };
        match e {
            Some(v) => v,
            None => now,
        }
    } else {
        let start: i64 = match &trial_start_str {
            Some(t) => match parse_rfc3339_ms(t.as_str()) {
                Some(v) => v,
                None => now,
            },
            None => now,
        };
        start + 14 * 86_400_000
    };
    let diff = expires_ms - now;
    let days_remaining: i64 = if diff <= 0 {
        0
    } else {
        diff / 86_400_000
    };
    let is_expired = diff <= 0;
    let plan = match plan_str {
        Some(p) => p,
        None => "TRIAL".to_owned(),
    };
    let info = LicenseInfo {
        active: license_key.is_some() && !is_expired && !tampered,
        is_trial,
        days_remaining,
        expires_at: format_rfc3339_ms(expires_ms),
        is_expired,
        is_blocked: is_expired || tampered,
        clock_tampered: tampered,
        key: license_key,
        hwid,
        plan,
    };
    (info, last_seen_write)
}

/// The settings a successful activation writes back, in write order: the
/// activated key always; the token, expiry, and plan when the remote sent
/// them; and the linked school's identity when the remote sent it.
pub open spec fn spec_activation_settings(
    key: String,
    r: ActivationResult,
) -> Seq<(SettingKey, String)> {
    seq![(SettingKey::LicenseKey, key)] + (match r.token {
        Some(t) => seq![(SettingKey::LicenseToken, t)],
        None => Seq::empty(),
    }) + (match r.expires_at {
        Some(e) => seq![(SettingKey::LicenseExpiresAt, e)],
        None => Seq::empty(),
    }) + (match r.plan {
        Some(p) => seq![(SettingKey::LicensePlan, p)],
        None => Seq::empty(),
    }) + (match r.school {
        Some(sc) => seq![
            (SettingKey::SchoolId, sc.id),
            (SettingKey::SchoolName, sc.name),
            (SettingKey::SchoolCity, sc.city),
        ] + (match sc.pobox {
            Some(pb) => seq![(SettingKey::SchoolPobox, pb)],
            None => Seq::empty(),
        }),
        None => Seq::empty(),
    })
}

/// Decides the settings writes for an activation response: nothing on
/// failure, the activated identity on success.
pub fn activation_settings(key: &String, r: &ActivationResult) -> (w: Vec<(SettingKey, String)>)
    ensures
        !r.success ==> w@.len() == 0,
        r.success ==> w@ == spec_activation_settings(*key, *r),
{
    let mut w: Vec<(SettingKey, String)> = Vec::new();
    if !r.success {
        return w;
    }
    w.push((SettingKey::LicenseKey, key.clone()));
    match &r.token {
        Some(t) => w.push((SettingKey::LicenseToken, t.clone())),
        None => {},
    }
    match &r.expires_at {
        Some(e) => w.push((SettingKey::LicenseExpiresAt, e.clone())),
        None => {},
    }
    match &r.plan {
        Some(p) => w.push((SettingKey::LicensePlan, p.clone())),
        None => {},
    }
    match &r.school {
        Some(sc) => {
            w.push((SettingKey::SchoolId, sc.id.clone()));
            w.push((SettingKey::SchoolName, sc.name.clone()));
            w.push((SettingKey::SchoolCity, sc.city.clone()));
            match &sc.pobox {
                Some(pb) => w.push((SettingKey::SchoolPobox, pb.clone())),
                None => {},
            }
        },
        None => {},
    }
    proof {
        assert(w@ =~= spec_activation_settings(*key, *r));
    }
    w
}

/// What a remote license refresh decides: whether the response counted as
/// valid, and the settings to write back.
pub struct RefreshDecision {
    pub ok: bool,
    pub writes: Vec<(SettingKey, String)>,
}

/// Decides the settings writes for a remote license status response. An
/// unsuccessful response writes nothing and reports failure. A successful
/// response with an active license records the expiry and plan the remote
/// sent (each only when present); one with an inactive license forces the
/// expiry a day into the past, expiring the device immediately.
pub fn refresh_decision(
    success: bool,
    license_active: bool,
    expires_at: Option<String>,
    plan: Option<String>,
    now: i64,
) -> (d: RefreshDecision)
    requires
        ts_ok(now),
    ensures
        d.ok == success,
        !success ==> d.writes@.len() == 0,
        (success && license_active) ==> d.writes@ == (match expires_at {
            Some(e) => seq![(SettingKey::LicenseExpiresAt, e)],
            None => Seq::<(SettingKey, String)>::empty(),
        }) + (match plan {
            Some(p) => seq![(SettingKey::LicensePlan, p)],
            None => Seq::<(SettingKey, String)>::empty(),
        }),
        (success && !license_active) ==> d.writes@.len() == 1 && d.writes@[0].0
            == SettingKey::LicenseExpiresAt && d.writes@[0].1@ == rfc3339_of(
            (now - 86_400_000) as i64,
        ),

{
    let mut writes: Vec<(SettingKey, String)> = Vec::new();
    if !success {
        return RefreshDecision { ok: false, writes };
    }
    if license_active {
        match expires_at {
            Some(e) => writes.push((SettingKey::LicenseExpiresAt, e)),
            None => {},
        }
        match plan {
            Some(p) => writes.push((SettingKey::LicensePlan, p)),
            None => {},
        }
        proof {
            assert(writes@ =~= (match expires_at {
                Some(e) => seq![(SettingKey::LicenseExpiresAt, e)],
                None => Seq::<(SettingKey, String)>::empty(),
            }) + (match plan {
                Some(p) => seq![(SettingKey::LicensePlan, p)],
                None => Seq::<(SettingKey, String)>::empty(),
            }));
        }
    } else {
        writes.push((SettingKey::LicenseExpiresAt, format_rfc3339_ms(now - 86_400_000)));
    }
    RefreshDecision { ok: true, writes }
}

} // verus!
