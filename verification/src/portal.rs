//! What the web portal shows: devices, per-device expiry summaries, accounts,
//! apps, jobs and the server's settings.

use vstd::prelude::*;
use crate::expiry::{ExpiryCounts, expiry_tally, tally_expiry};
use crate::records::{AccountRow, AppRow, DeviceRow, JobRow, JobWithContext};
use crate::text::clone_opt_string;

verus! {

/// A device as the portal shows it (its pairing record stays on the server).
#[derive(Debug)]
pub struct DeviceInfo {
    pub id: String,
    pub name: String,
    pub udid: String,
    pub ip: String,
    pub port: i64,
    pub last_seen: Option<i64>,
    pub discovery: String,
    pub mdns_ip: Option<String>,
    pub mdns_seen_at: Option<i64>,
}

impl DeviceInfo {
    /// The portal's view of a device row.
    pub fn from_row(r: &DeviceRow) -> (d: DeviceInfo)
        ensures
            d.id == r.id && d.name == r.name && d.udid == r.udid && d.ip == r.ip && d.port == r.port,
            d.last_seen == r.last_seen && d.discovery == r.discovery && d.mdns_ip == r.mdns_ip,
            d.mdns_seen_at == r.mdns_seen_at,
    {
        DeviceInfo {
            id: r.id.clone(),
            name: r.name.clone(),
            udid: r.udid.clone(),
            ip: r.ip.clone(),
            port: r.port,
            last_seen: r.last_seen,
            discovery: r.discovery.clone(),
            mdns_ip: clone_opt_string(&r.mdns_ip),
            mdns_seen_at: r.mdns_seen_at,
        }
    }
}

/// A dashboard card: a device with its app count, how many of its apps expire
/// soon or have expired, when the next one expires, and what "soon" means.
#[derive(Debug)]
pub struct DeviceSummary {
    pub device: DeviceInfo,
    pub app_count: usize,
    pub expiring_soon_count: usize,
    pub expired_count: usize,
    pub next_expires_at: Option<i64>,
    pub expiring_soon_threshold_secs: i64,
}

/// The dashboard card of device `d` whose apps are `apps`, at time `now`.
pub fn device_summary(d: &DeviceRow, apps: &Vec<AppRow>, now: i64, window_secs: i64) -> (s: DeviceSummary)
    ensures
        s.device.id == d.id && s.device.name == d.name && s.device.udid == d.udid && s.device.ip == d.ip,
        s.device.port == d.port && s.device.last_seen == d.last_seen && s.device.discovery == d.discovery,
        s.device.mdns_ip == d.mdns_ip && s.device.mdns_seen_at == d.mdns_seen_at,
        (ExpiryCounts {
            app_count: s.app_count,
            expiring_soon_count: s.expiring_soon_count,
            expired_count: s.expired_count,
            next_expires_at: s.next_expires_at,
        }).matches(expiry_tally(apps@, now as int, window_secs as int)),
        s.expiring_soon_threshold_secs == window_secs,
{
    let c = tally_expiry(apps, now, window_secs);
    DeviceSummary {
        device: DeviceInfo::from_row(d),
        app_count: c.app_count,
        expiring_soon_count: c.expiring_soon_count,
        expired_count: c.expired_count,
        next_expires_at: c.next_expires_at,
        expiring_soon_threshold_secs: window_secs,
    }
}

/// An Apple account as the portal lists it.
#[derive(Debug)]
pub struct AccountInfo {
    pub id: String,
    pub apple_id: String,
    pub team_id: Option<String>,
    pub team_name: Option<String>,
}

impl AccountInfo {
    pub fn from_row(r: &AccountRow) -> (a: AccountInfo)
        ensures
            a.id == r.id && a.apple_id == r.apple_id && a.team_id == r.team_id && a.team_name == r.team_name,
    {
        AccountInfo {
            id: r.id.clone(),
            apple_id: r.apple_id.clone(),
            team_id: clone_opt_string(&r.team_id),
            team_name: clone_opt_string(&r.team_name),
        }
    }
}

/// An app as the device page lists it; whether its IPA is kept on the server
/// stands in for the path.
#[derive(Debug)]
pub struct AppInfo {
    pub id: String,
    pub device_id: String,
    pub bundle_id: String,
    pub display_name: String,
    pub version: Option<String>,
    pub has_ipa: bool,
    pub installed_at: Option<i64>,
    pub last_refreshed: Option<i64>,
    pub refresh_enabled: bool,
}

impl AppInfo {
    pub fn from_row(r: &AppRow) -> (a: AppInfo)
        ensures
            a.id == r.id && a.device_id == r.device_id && a.bundle_id == r.bundle_id,
            a.display_name == r.display_name && a.version == r.version,
            a.has_ipa == r.ipa_path is Some,
            a.installed_at == r.installed_at && a.last_refreshed == r.last_refreshed,
            a.refresh_enabled == r.refresh_enabled,
    {
        AppInfo {
            id: r.id.clone(),
            device_id: r.device_id.clone(),
            bundle_id: r.bundle_id.clone(),
            display_name: r.display_name.clone(),
            version: clone_opt_string(&r.version),
            has_ipa: r.ipa_path.is_some(),
            installed_at: r.installed_at,
            last_refreshed: r.last_refreshed,
            refresh_enabled: r.refresh_enabled,
        }
    }
}

/// A job's state as the progress indicator polls it.
#[derive(Debug)]
pub struct JobInfo {
    pub id: String,
    pub app_id: String,
    pub kind: String,
    pub status: String,
    pub error: Option<String>,
    pub started_at: Option<i64>,
    pub finished_at: Option<i64>,
    pub progress: i64,
    pub stage: Option<String>,
}

impl JobInfo {
    pub fn from_row(r: &JobRow) -> (j: JobInfo)
        ensures
            j.id == r.id && j.app_id == r.app_id && j.kind == r.kind && j.status == r.status,
            j.error == r.error && j.started_at == r.started_at && j.finished_at == r.finished_at,
            j.progress == r.progress && j.stage == r.stage,
    {
        JobInfo {
            id: r.id.clone(),
            app_id: r.app_id.clone(),
            kind: r.kind.clone(),
            status: r.status.clone(),
            error: clone_opt_string(&r.error),
            started_at: r.started_at,
            finished_at: r.finished_at,
            progress: r.progress,
            stage: clone_opt_string(&r.stage),
        }
    }

    /// A job is over once it is done or failed.
    pub fn is_finished(&self) -> (r: bool)
        ensures
            r == (self.status@ == "done"@ || self.status@ == "failed"@),
    {
        crate::text::str_eq(self.status.as_str(), "done") || crate::text::str_eq(self.status.as_str(), "failed")
    }
}

/// An entry of the job queue page.
#[derive(Debug)]
pub struct QueueEntry {
    pub id: String,
    pub app_id: String,
    pub app_name: String,
    pub device_id: String,
    pub device_name: String,
    pub kind: String,
    pub status: String,
    pub error: Option<String>,
    pub started_at: Option<i64>,
    pub finished_at: Option<i64>,
    pub progress: i64,
    pub stage: Option<String>,
}

impl QueueEntry {
    pub fn from_row(r: &JobWithContext) -> (q: QueueEntry)
        ensures
            q.id == r.id && q.app_id == r.app_id && q.app_name == r.app_name && q.device_id == r.device_id,
            q.device_name == r.device_name && q.kind == r.kind && q.status == r.status && q.error == r.error,
            q.started_at == r.started_at && q.finished_at == r.finished_at && q.progress == r.progress,
            q.stage == r.stage,
    {
        QueueEntry {
            id: r.id.clone(),
            app_id: r.app_id.clone(),
            app_name: r.app_name.clone(),
            device_id: r.device_id.clone(),
            device_name: r.device_name.clone(),
            kind: r.kind.clone(),
            status: r.status.clone(),
            error: clone_opt_string(&r.error),
            started_at: r.started_at,
            finished_at: r.finished_at,
            progress: r.progress,
            stage: clone_opt_string(&r.stage),
        }
    }

    /// A job still waiting or running keeps the queue page polling.
    pub fn is_active(&self) -> (r: bool)
        ensures
            r == (self.status@ == "queued"@ || self.status@ == "running"@),
    {
        crate::text::str_eq(self.status.as_str(), "queued") || crate::text::str_eq(self.status.as_str(), "running")
    }
}

/// An exported development certificate for LiveContainer.
#[derive(Debug)]
pub struct LcCertExport {
    pub p12_b64: String,
    pub serial: String,
    pub password: String,
}

/// An App ID registered for a team.
#[derive(Debug)]
pub struct AppIdEntry {
    pub name: String,
    pub identifier: String,
    /// Unix timestamp (seconds) the App ID's certificate expires at.
    pub expiration_date: Option<i64>,
}

/// A team's App IDs and its App ID allowance.
#[derive(Debug)]
pub struct AppIdsResult {
    pub entries: Vec<AppIdEntry>,
    pub max_quantity: Option<u64>,
    pub available_quantity: Option<i64>,
}

/// A live reachability probe of a device.
#[derive(Debug)]
pub struct DeviceProbe {
    /// Round-trip time in ms if a live TCP probe to the device succeeded just now.
    pub reachable_ms: Option<u64>,
    pub mdns_seen_at: Option<i64>,
}

/// The server's settings as the settings page shows them.
#[derive(Debug)]
pub struct ServerConfigInfo {
    pub bind: String,
    pub log_level: String,
    pub anisette_url: String,
    pub database_path: String,
    pub ipa_dir: String,
    pub interval_hours: u64,
    pub refresh_window_days: i64,
    pub worker_threads: usize,
    pub mdns_enabled: bool,
    pub mdns_interface: String,
}

} // verus!
