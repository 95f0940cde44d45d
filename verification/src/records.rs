//! The rows the server keeps about devices, Apple accounts, apps and jobs.

use vstd::prelude::*;
use crate::text::clone_opt_string;

verus! {

/// A registered iOS device.
#[derive(Debug)]
pub struct DeviceRow {
    pub id: String,
    pub name: String,
    pub udid: String,
    pub ip: String,
    pub port: i64,
    pub pairing_blob: Vec<u8>,
    pub last_seen: Option<i64>,
    pub discovery: String,
    pub mdns_ip: Option<String>,
    pub mdns_seen_at: Option<i64>,
}

/// The plain value of a device row.
pub struct DeviceView {
    pub id: Seq<char>,
    pub name: Seq<char>,
    pub udid: Seq<char>,
    pub ip: Seq<char>,
    pub port: i64,
    pub pairing_blob: Seq<u8>,
    pub last_seen: Option<i64>,
    pub discovery: Seq<char>,
    pub mdns_ip: Option<Seq<char>>,
    pub mdns_seen_at: Option<i64>,
}

impl View for DeviceRow {
    type V = DeviceView;

    open spec fn view(&self) -> DeviceView {
        DeviceView {
            id: self.id@,
            name: self.name@,
            udid: self.udid@,
            ip: self.ip@,
            port: self.port,
            pairing_blob: self.pairing_blob@,
            last_seen: self.last_seen,
            discovery: self.discovery@,
            mdns_ip: crate::text::opt_view(self.mdns_ip),
            mdns_seen_at: self.mdns_seen_at,
        }
    }
}

/// A copy of a byte vector.
pub fn clone_bytes(v: &Vec<u8>) -> (r: Vec<u8>)
    ensures
        r@ == v@,
{
    let mut r: Vec<u8> = Vec::new();
    let mut i: usize = 0;
    while i < v.len()
        invariant
            i <= v.len(),
            r@ == v@.take(i as int),
        decreases v.len() - i,
    {
        r.push(v[i]);
        i = i + 1;
        assert(r@ =~= v@.take(i as int));
    }
    assert(v@.take(v.len() as int) =~= v@);
    r
}

impl DeviceRow {
    /// A copy of this row.
    pub fn duplicate(&self) -> (r: DeviceRow)
        ensures
            r@ == self@,
    {
        DeviceRow {
            id: self.id.clone(),
            name: self.name.clone(),
            udid: self.udid.clone(),
            ip: self.ip.clone(),
            port: self.port,
            pairing_blob: clone_bytes(&self.pairing_blob),
            last_seen: self.last_seen,
            discovery: self.discovery.clone(),
            mdns_ip: clone_opt_string(&self.mdns_ip),
            mdns_seen_at: self.mdns_seen_at,
        }
    }
}

/// An Apple account as listed to the user (its session stays private).
#[derive(Debug)]
pub struct AccountRow {
    pub id: String,
    pub apple_id: String,
    pub team_id: Option<String>,
    pub team_name: Option<String>,
}

impl Clone for AccountRow {
    fn clone(&self) -> (r: Self)
        ensures
            r == *self,
    {
        AccountRow {
            id: self.id.clone(),
            apple_id: self.apple_id.clone(),
            team_id: clone_opt_string(&self.team_id),
            team_name: clone_opt_string(&self.team_name),
        }
    }
}

/// An app tracked on a device.
#[derive(Debug)]
pub struct AppRow {
    pub id: String,
    pub device_id: String,
    pub bundle_id: String,
    pub display_name: String,
    pub version: Option<String>,
    pub ipa_path: Option<String>,
    pub account_id: Option<String>,
    pub installed_at: Option<i64>,
    pub last_refreshed: Option<i64>,
    pub refresh_enabled: bool,
}

impl Clone for AppRow {
    fn clone(&self) -> (r: Self)
        ensures
            r == *self,
    {
        AppRow {
            id: self.id.clone(),
            device_id: self.device_id.clone(),
            bundle_id: self.bundle_id.clone(),
            display_name: self.display_name.clone(),
            version: clone_opt_string(&self.version),
            ipa_path: clone_opt_string(&self.ipa_path),
            account_id: clone_opt_string(&self.account_id),
            installed_at: self.installed_at,
            last_refreshed: self.last_refreshed,
            refresh_enabled: self.refresh_enabled,
        }
    }
}

impl AppRow {
    /// Removing an app touches the device only when an install of it was
    /// confirmed; otherwise only the row goes.
    pub fn needs_uninstall(&self) -> (r: bool)
        ensures
            r == self.installed_at is Some,
    {
        self.installed_at.is_some()
    }
}

/// A background install or refresh job.
#[derive(Debug)]
pub struct JobRow {
    pub id: String,
    pub app_id: String,
    pub kind: String,
    pub status: String,
    pub error: Option<String>,
    pub started_at: Option<i64>,
    pub finished_at: Option<i64>,
    pub progress: i64,
    pub stage: Option<String>,
}

impl Clone for JobRow {
    fn clone(&self) -> (r: Self)
        ensures
            r == *self,
    {
        JobRow {
            id: self.id.clone(),
            app_id: self.app_id.clone(),
            kind: self.kind.clone(),
            status: self.status.clone(),
            error: clone_opt_string(&self.error),
            started_at: self.started_at,
            finished_at: self.finished_at,
            progress: self.progress,
            stage: clone_opt_string(&self.stage),
        }
    }
}

/// A job together with the app and device it is for, as the queue shows it.
#[derive(Debug)]
pub struct JobWithContext {
    pub id: String,
    pub app_id: String,
    pub app_name: String,
    pub device_id: String,
    pub device_name: String,
    pub kind: String,
    pub status: String,
    pub error: Option<String>,
    pub started_at: Option<i64>,
    pub finished_at: Option<i64>,
    pub progress: i64,
    pub stage: Option<String>,
}

} // verus!
