//! The server's registry of devices, Apple accounts, apps and jobs, with the
//! rules its tables keep: unique keys, references that must exist, cascading
//! deletes, and the conflict rules of its inserts.

use vstd::prelude::*;
use crate::records::{AccountRow, AppRow, DeviceRow, DeviceView, JobRow, JobWithContext, clone_bytes};
use crate::seqs::{
    Named, has_key, keys_distinct, lemma_filter_keeps_distinct, lemma_push_keeps_distinct,
    lemma_remove_keeps_distinct, lemma_update_keeps_distinct, name_of, sort_by_name, keep_flagged, lemma_same_members,
};
use crate::clock::now_unix_secs;
use crate::order::sorted_by;
use crate::text::{opt_view, str_eq};

verus! {


/// Why a change to the registry was refused.
#[derive(Debug, PartialEq, Eq, Structural, Clone, Copy)]
pub enum DbError {
    /// A row with the same unique key is already there.
    Conflict,
    /// A row that the change refers to does not exist.
    MissingReference,
}

/// An Apple account with its encrypted session.
#[derive(Debug)]
pub struct AccountEntry {
    pub row: AccountRow,
    pub session_blob: Vec<u8>,
}

/// The device, account, app and job tables.
pub struct Registry {
    devices: Vec<DeviceRow>,
    accounts: Vec<AccountEntry>,
    apps: Vec<AppRow>,
    jobs: Vec<JobRow>,
}

impl Registry {
    /// The device table.
    pub closed spec fn device_rows(&self) -> Seq<DeviceRow> {
        self.devices@
    }

    /// The account table.
    pub closed spec fn account_entries(&self) -> Seq<AccountEntry> {
        self.accounts@
    }

    /// The app table.
    pub closed spec fn app_rows(&self) -> Seq<AppRow> {
        self.apps@
    }

    /// The job table.
    pub closed spec fn job_rows(&self) -> Seq<JobRow> {
        self.jobs@
    }

    /// The device table, to read.
    pub fn devices(&self) -> (r: &Vec<DeviceRow>)
        ensures
            r@ == self.device_rows(),
    {
        &self.devices
    }

    /// The account table, to read.
    pub fn accounts(&self) -> (r: &Vec<AccountEntry>)
        ensures
            r@ == self.account_entries(),
    {
        &self.accounts
    }

    /// The app table, to read.
    pub fn apps(&self) -> (r: &Vec<AppRow>)
        ensures
            r@ == self.app_rows(),
    {
        &self.apps
    }

    /// The job table, to read.
    pub fn jobs(&self) -> (r: &Vec<JobRow>)
        ensures
            r@ == self.job_rows(),
    {
        &self.jobs
    }
}

pub open spec fn device_id_key() -> spec_fn(DeviceRow) -> Seq<char> {
    |d: DeviceRow| d.id@
}

pub open spec fn device_udid_key() -> spec_fn(DeviceRow) -> Seq<char> {
    |d: DeviceRow| d.udid@
}

pub open spec fn account_id_key() -> spec_fn(AccountEntry) -> Seq<char> {
    |a: AccountEntry| a.row.id@
}

pub open spec fn account_apple_key() -> spec_fn(AccountEntry) -> Seq<char> {
    |a: AccountEntry| a.row.apple_id@
}

pub open spec fn app_id_key() -> spec_fn(AppRow) -> Seq<char> {
    |a: AppRow| a.id@
}

/// An app's place: one app per bundle identifier on each device.
pub open spec fn app_slot_key() -> spec_fn(AppRow) -> (Seq<char>, Seq<char>) {
    |a: AppRow| (a.device_id@, a.bundle_id@)
}

pub open spec fn job_id_key() -> spec_fn(JobRow) -> Seq<char> {
    |j: JobRow| j.id@
}

/// Every app's device exists.
pub open spec fn apps_on_known_devices(apps: Seq<AppRow>, devices: Seq<DeviceRow>) -> bool {
    forall|i: int| 0 <= i < apps.len() ==> has_key(devices, device_id_key(), (#[trigger] apps[i]).device_id@)
}

/// Every app's account, where it names one, exists.
pub open spec fn apps_on_known_accounts(apps: Seq<AppRow>, accounts: Seq<AccountEntry>) -> bool {
    forall|i: int|
        0 <= i < apps.len() && (#[trigger] apps[i]).account_id is Some ==> has_key(
            accounts,
            account_id_key(),
            apps[i].account_id->0@,
        )
}

/// Every job's app exists.
pub open spec fn jobs_on_known_apps(jobs: Seq<JobRow>, apps: Seq<AppRow>) -> bool {
    forall|i: int| 0 <= i < jobs.len() ==> has_key(apps, app_id_key(), (#[trigger] jobs[i]).app_id@)
}

impl Registry {
    /// The tables keep their keys unique and their references valid.
    pub open spec fn wf(&self) -> bool {
        &&& keys_distinct(self.device_rows(), device_id_key())
        &&& keys_distinct(self.device_rows(), device_udid_key())
        &&& keys_distinct(self.account_entries(), account_id_key())
        &&& keys_distinct(self.account_entries(), account_apple_key())
        &&& keys_distinct(self.app_rows(), app_id_key())
        &&& keys_distinct(self.app_rows(), app_slot_key())
        &&& keys_distinct(self.job_rows(), job_id_key())
        &&& apps_on_known_devices(self.app_rows(), self.device_rows())
        &&& apps_on_known_accounts(self.app_rows(), self.account_entries())
        &&& jobs_on_known_apps(self.job_rows(), self.app_rows())
    }

    /// An empty registry.
    pub fn new() -> (r: Registry)
        ensures
            r.wf(),
            r.device_rows().len() == 0,
            r.account_entries().len() == 0,
            r.app_rows().len() == 0,
            r.job_rows().len() == 0,
    {
        Registry { devices: Vec::new(), accounts: Vec::new(), apps: Vec::new(), jobs: Vec::new() }
    }

    /// The position of the device with identifier `id`.
    pub fn find_device(&self, id: &str) -> (r: Option<usize>)
        ensures
            match r {
                Some(i) => i < self.device_rows().len() && self.device_rows()[i as int].id@ == id@,
                None => !has_key(self.device_rows(), device_id_key(), id@),
            },
    {
        let mut i: usize = 0;
        while i < self.devices.len()
            invariant
                i <= self.device_rows().len(),
                forall|k: int| 0 <= k < i ==> self.device_rows()[k].id@ != id@,
            decreases self.device_rows().len() - i,
        {
            if str_eq(self.devices[i].id.as_str(), id) {
                return Some(i);
            }
            i = i + 1;
        }
        None
    }

    fn find_udid(&self, udid: &str) -> (r: bool)
        ensures
            r == has_key(self.device_rows(), device_udid_key(), udid@),
    {
        let mut i: usize = 0;
        while i < self.devices.len()
            invariant
                i <= self.device_rows().len(),
                forall|k: int| 0 <= k < i ==> self.device_rows()[k].udid@ != udid@,
            decreases self.device_rows().len() - i,
        {
            if str_eq(self.devices[i].udid.as_str(), udid) {
                assert(device_udid_key()(self.device_rows()[i as int]) == udid@);
                return true;
            }
            i = i + 1;
        }
        false
    }

    /// Registers a device. Refused when its identifier or UDID is taken.
    pub fn insert_device(
        &mut self,
        id: &str,
        name: &str,
        udid: &str,
        ip: &str,
        port: i64,
        pairing_blob: &[u8],
        discovery: &str,
    ) -> (r: Result<(), DbError>)
        requires
            old(self).wf(),
        ensures
            final(self).wf(),
            r is Err <==> (has_key(old(self).device_rows(), device_id_key(), id@) || has_key(
                old(self).device_rows(),
                device_udid_key(),
                udid@,
            )),
            r is Err ==> r == Err::<(), DbError>(DbError::Conflict) && *final(self) == *old(self),
            r is Ok ==> {
                &&& final(self).device_rows().len() == old(self).device_rows().len() + 1
                &&& final(self).device_rows().drop_last() == old(self).device_rows()
                &&& final(self).device_rows().last()@ == (DeviceView {
                    id: id@,
                    name: name@,
                    udid: udid@,
                    ip: ip@,
                    port: port,
                    pairing_blob: pairing_blob@,
                    last_seen: None,
                    discovery: discovery@,
                    mdns_ip: None,
                    mdns_seen_at: None,
                })
                &&& final(self).account_entries() == old(self).account_entries()
                &&& final(self).app_rows() == old(self).app_rows()
                &&& final(self).job_rows() == old(self).job_rows()
            },
    {
        if self.find_device(id).is_some() || self.find_udid(udid) {
            return Err(DbError::Conflict);
        }
        let d = DeviceRow {
            id: id.to_owned(),
            name: name.to_owned(),
            udid: udid.to_owned(),
            ip: ip.to_owned(),
            port: port,
            pairing_blob: vstd::slice::slice_to_vec(pairing_blob),
            last_seen: None,
            discovery: discovery.to_owned(),
            mdns_ip: None,
            mdns_seen_at: None,
        };
        let ghost old_devices = self.device_rows();
        proof {
            lemma_push_keeps_distinct(old_devices, d, device_id_key());
            lemma_push_keeps_distinct(old_devices, d, device_udid_key());
        }
        self.devices.push(d);
        proof {
            assert(self.device_rows().drop_last() =~= old_devices);
            assert forall|i: int| 0 <= i < self.app_rows().len() implies has_key(
                self.device_rows(),
                device_id_key(),
                (#[trigger] self.app_rows()[i]).device_id@,
            ) by {
                let k = choose|k: int|
                    0 <= k < old_devices.len() && device_id_key()(#[trigger] old_devices[k])
                        == self.app_rows()[i].device_id@;
                assert(self.device_rows()[k] == old_devices[k]);
            }
        }
        Ok(())
    }

    /// A copy of the device with identifier `id`, if there is one.
    pub fn get_device(&self, id: &str) -> (r: Option<DeviceRow>)
        ensures
            match r {
                Some(d) => exists|i: int|
                    0 <= i < self.device_rows().len() && self.device_rows()[i].id@ == id@ && d@
                        == #[trigger] self.device_rows()[i]@,
                None => !has_key(self.device_rows(), device_id_key(), id@),
            },
    {
        match self.find_device(id) {
            Some(i) => Some(self.devices[i].duplicate()),
            None => None,
        }
    }
}

impl Named for DeviceRow {
    open spec fn sort_name(&self) -> Seq<char> {
        self.name@
    }

    fn name_text(&self) -> (r: &str) {
        self.name.as_str()
    }
}

/// A device seen by mDNS at `ip` at time `now`.
pub open spec fn mdns_sighting(ip: Seq<char>, now: i64) -> spec_fn(DeviceView) -> DeviceView {
    |d: DeviceView| DeviceView { mdns_ip: Some(ip), mdns_seen_at: Some(now), ..d }
}

/// Some device of `s` has the value `v`.
pub open spec fn device_listed(s: Seq<DeviceRow>, v: DeviceView) -> bool {
    exists|i: int| 0 <= i < s.len() && s[i]@ == v
}

/// `a` and `b` list the same device values.
#[verifier::opaque]
pub open spec fn same_devices(a: Seq<DeviceRow>, b: Seq<DeviceRow>) -> bool {
    &&& forall|k: int| 0 <= k < a.len() ==> #[trigger] device_listed(b, a[k]@)
    &&& forall|i: int| 0 <= i < b.len() ==> #[trigger] device_listed(a, b[i]@)
}

/// The devices other than `id`.
pub open spec fn devices_without(devices: Seq<DeviceRow>, id: Seq<char>) -> Seq<DeviceRow> {
    devices.filter(|d: DeviceRow| d.id@ != id)
}

/// The apps not on device `id`.
pub open spec fn apps_off_device(apps: Seq<AppRow>, id: Seq<char>) -> Seq<AppRow> {
    apps.filter(|a: AppRow| a.device_id@ != id)
}

/// The jobs whose app is among `apps`.
pub open spec fn jobs_of_apps(jobs: Seq<JobRow>, apps: Seq<AppRow>) -> Seq<JobRow> {
    jobs.filter(|j: JobRow| has_key(apps, app_id_key(), j.app_id@))
}

/// The device at `k` after changing the one with identifier `id` by `change`.
pub open spec fn device_changed(
    old_devices: Seq<DeviceRow>,
    new_devices: Seq<DeviceRow>,
    id: Seq<char>,
    change: spec_fn(DeviceView) -> DeviceView,
) -> bool {
    &&& new_devices.len() == old_devices.len()
    &&& forall|k: int|
        0 <= k < old_devices.len() ==> if (#[trigger] old_devices[k]).id@ == id {
            new_devices[k]@ == change(old_devices[k]@)
        } else {
            new_devices[k] == old_devices[k]
        }
}

impl Registry {
    /// The position of the app with identifier `id`.
    pub fn find_app(&self, id: &str) -> (r: Option<usize>)
        ensures
            match r {
                Some(i) => i < self.app_rows().len() && self.app_rows()[i as int].id@ == id@,
                None => !has_key(self.app_rows(), app_id_key(), id@),
            },
    {
        let mut i: usize = 0;
        while i < self.apps.len()
            invariant
                i <= self.app_rows().len(),
                forall|k: int| 0 <= k < i ==> self.app_rows()[k].id@ != id@,
            decreases self.app_rows().len() - i,
        {
            if str_eq(self.apps[i].id.as_str(), id) {
                return Some(i);
            }
            i = i + 1;
        }
        None
    }

    proof fn lemma_device_keys_kept(old_devices: Seq<DeviceRow>, new_devices: Seq<DeviceRow>, apps: Seq<AppRow>)
        requires
            new_devices.len() == old_devices.len(),
            forall|k: int| 0 <= k < old_devices.len() ==> (#[trigger] new_devices[k]).id@ == old_devices[k].id@
                && new_devices[k].udid@ == old_devices[k].udid@,
            keys_distinct(old_devices, device_id_key()),
            keys_distinct(old_devices, device_udid_key()),
            apps_on_known_devices(apps, old_devices),
        ensures
            keys_distinct(new_devices, device_id_key()),
            keys_distinct(new_devices, device_udid_key()),
            apps_on_known_devices(apps, new_devices),
    {
        assert forall|i: int, j: int|
            0 <= i < new_devices.len() && 0 <= j < new_devices.len() && i != j implies device_id_key()(
                new_devices[i],
            ) != device_id_key()(new_devices[j]) && device_udid_key()(new_devices[i]) != device_udid_key()(
                new_devices[j],
            ) by {
            assert(old_devices[i].id@ != old_devices[j].id@);
            assert(device_udid_key()(old_devices[i]) != device_udid_key()(old_devices[j]));
        }
        assert forall|i: int| 0 <= i < apps.len() implies has_key(
            new_devices,
            device_id_key(),
            (#[trigger] apps[i]).device_id@,
        ) by {
            let k = choose|k: int|
                0 <= k < old_devices.len() && device_id_key()(#[trigger] old_devices[k]) == apps[i].device_id@;
            assert(device_id_key()(new_devices[k]) == apps[i].device_id@);
        }
    }

    /// Sets the address a device is reached at.
    pub fn update_device_ip(&mut self, id: &str, ip: &str)
        requires
            old(self).wf(),
        ensures
            final(self).wf(),
            device_changed(old(self).device_rows(), final(self).device_rows(), id@, |d: DeviceView| DeviceView { ip: ip@, ..d }),
            final(self).account_entries() == old(self).account_entries(),
            final(self).app_rows() == old(self).app_rows(),
            final(self).job_rows() == old(self).job_rows(),
    {
        if let Some(i) = self.find_device(id) {
            let ghost old_devices = self.device_rows();
            self.devices[i].ip = ip.to_owned();
            proof {
                Self::lemma_device_keys_kept(old_devices, self.device_rows(), self.app_rows());
                assert forall|k: int| 0 <= k < old_devices.len() && k != i implies (#[trigger] old_devices[k]).id@ != id@ by {
                    assert(old_devices[k].id@ != old_devices[i as int].id@);
                }
            }
        }
    }

    /// Replaces a device's pairing record.
    pub fn update_device_pairing(&mut self, id: &str, blob: &[u8])
        requires
            old(self).wf(),
        ensures
            final(self).wf(),
            device_changed(old(self).device_rows(), final(self).device_rows(), id@, |d: DeviceView| DeviceView { pairing_blob: blob@, ..d }),
            final(self).account_entries() == old(self).account_entries(),
            final(self).app_rows() == old(self).app_rows(),
            final(self).job_rows() == old(self).job_rows(),
    {
        if let Some(i) = self.find_device(id) {
            let ghost old_devices = self.device_rows();
            self.devices[i].pairing_blob = vstd::slice::slice_to_vec(blob);
            proof {
                Self::lemma_device_keys_kept(old_devices, self.device_rows(), self.app_rows());
                assert forall|k: int| 0 <= k < old_devices.len() && k != i implies (#[trigger] old_devices[k]).id@ != id@ by {
                    assert(old_devices[k].id@ != old_devices[i as int].id@);
                }
            }
        }
    }

    /// Records the LAN address mDNS last resolved for a device, seen at `now`.
    pub fn update_device_mdns_ip_at(&mut self, id: &str, ip: &str, now: i64)
        requires
            old(self).wf(),
        ensures
            final(self).wf(),
            device_changed(old(self).device_rows(), final(self).device_rows(), id@, mdns_sighting(ip@, now)),
            final(self).account_entries() == old(self).account_entries(),
            final(self).app_rows() == old(self).app_rows(),
            final(self).job_rows() == old(self).job_rows(),
    {
        if let Some(i) = self.find_device(id) {
            let ghost old_devices = self.device_rows();
            self.devices[i].mdns_ip = Some(ip.to_owned());
            self.devices[i].mdns_seen_at = Some(now);
            proof {
                Self::lemma_device_keys_kept(old_devices, self.device_rows(), self.app_rows());
                assert forall|k: int| 0 <= k < old_devices.len() && k != i implies (#[trigger] old_devices[k]).id@ != id@ by {
                    assert(old_devices[k].id@ != old_devices[i as int].id@);
                }
            }
        }
    }

    /// Records the LAN address mDNS last resolved for a device, seen now.
    pub fn update_device_mdns_ip(&mut self, id: &str, ip: &str)
        requires
            old(self).wf(),
        ensures
            final(self).wf(),
            exists|now: i64|
                #[trigger] device_changed(
                    old(self).device_rows(),
                    final(self).device_rows(),
                    id@,
                    mdns_sighting(ip@, now),
                ),
            final(self).account_entries() == old(self).account_entries(),
            final(self).app_rows() == old(self).app_rows(),
            final(self).job_rows() == old(self).job_rows(),
    {
        let now = now_unix_secs();
        self.update_device_mdns_ip_at(id, ip, now);
        assert(device_changed(old(self).device_rows(), self.device_rows(), id@, mdns_sighting(ip@, now)));
    }

    /// Removes a device, its apps, and their jobs.
    pub fn delete_device(&mut self, id: &str)
        requires
            old(self).wf(),
        ensures
            final(self).wf(),
            final(self).device_rows() == devices_without(old(self).device_rows(), id@),
            final(self).app_rows() == apps_off_device(old(self).app_rows(), id@),
            final(self).job_rows() == jobs_of_apps(old(self).job_rows(), final(self).app_rows()),
            final(self).account_entries() == old(self).account_entries(),
    {
        let ghost old_self = *self;
        let ghost pd = |d: DeviceRow| d.id@ != id@;
        let ghost pa = |a: AppRow| a.device_id@ != id@;
        let mut devices: Vec<DeviceRow> = Vec::new();
        std::mem::swap(&mut devices, &mut self.devices);
        let mut keep: Vec<bool> = Vec::new();
        let mut i: usize = 0;
        while i < devices.len()
            invariant
                i <= devices@.len(),
                keep@.len() == i,
                forall|k: int| 0 <= k < i ==> keep@[k] == pd(#[trigger] devices@[k]),
                pd == (|d: DeviceRow| d.id@ != id@),
            decreases devices@.len() - i,
        {
            keep.push(!str_eq(devices[i].id.as_str(), id));
            i = i + 1;
        }
        self.devices = keep_flagged(devices, &keep, Ghost(pd));

        let mut apps: Vec<AppRow> = Vec::new();
        std::mem::swap(&mut apps, &mut self.apps);
        let mut keep: Vec<bool> = Vec::new();
        let mut i: usize = 0;
        while i < apps.len()
            invariant
                i <= apps@.len(),
                keep@.len() == i,
                forall|k: int| 0 <= k < i ==> keep@[k] == pa(#[trigger] apps@[k]),
                pa == (|a: AppRow| a.device_id@ != id@),
            decreases apps@.len() - i,
        {
            keep.push(!str_eq(apps[i].device_id.as_str(), id));
            i = i + 1;
        }
        self.apps = keep_flagged(apps, &keep, Ghost(pa));

        let ghost pj = |j: JobRow| has_key(self.app_rows(), app_id_key(), j.app_id@);
        let mut jobs: Vec<JobRow> = Vec::new();
        std::mem::swap(&mut jobs, &mut self.jobs);
        let mut keep: Vec<bool> = Vec::new();
        let mut i: usize = 0;
        while i < jobs.len()
            invariant
                i <= jobs@.len(),
                keep@.len() == i,
                forall|k: int| 0 <= k < i ==> keep@[k] == pj(#[trigger] jobs@[k]),
                pj == (|j: JobRow| has_key(self.app_rows(), app_id_key(), j.app_id@)),
            decreases jobs@.len() - i,
        {
            keep.push(self.find_app(jobs[i].app_id.as_str()).is_some());
            i = i + 1;
        }
        self.jobs = keep_flagged(jobs, &keep, Ghost(pj));
        proof {
            broadcast use vstd::seq_lib::group_filter_ensures;
            let od = old_self.device_rows();
            let oa = old_self.app_rows();
            let oj = old_self.job_rows();
            lemma_filter_keeps_distinct(od, pd, device_id_key());
            lemma_filter_keeps_distinct(od, pd, device_udid_key());
            lemma_filter_keeps_distinct(oa, pa, app_id_key());
            lemma_filter_keeps_distinct(oa, pa, app_slot_key());
            lemma_filter_keeps_distinct(oj, pj, job_id_key());
            assert forall|i: int| 0 <= i < self.app_rows().len() implies has_key(
                self.device_rows(),
                device_id_key(),
                (#[trigger] self.app_rows()[i]).device_id@,
            ) by {
                let a = self.app_rows()[i];
                assert(oa.contains(a));
                assert(pa(a));
                let ia = choose|ia: int| 0 <= ia < oa.len() && oa[ia] == a;
                assert(oa[ia] == a);
                let k = choose|k: int| 0 <= k < od.len() && device_id_key()(#[trigger] od[k]) == oa[ia].device_id@;
                assert(pd(od[k]));
                od.lemma_filter_contains_rev(pd, od[k]);
                assert(self.device_rows().contains(od[k]));
                let m = choose|m: int| 0 <= m < self.device_rows().len() && self.device_rows()[m] == od[k];
                assert(device_id_key()(self.device_rows()[m]) == a.device_id@);
            }
            assert forall|i: int|
                0 <= i < self.app_rows().len() && (#[trigger] self.app_rows()[i]).account_id is Some implies has_key(
                    self.account_entries(),
                    account_id_key(),
                    self.app_rows()[i].account_id->0@,
                ) by {
                let a = self.app_rows()[i];
                assert(oa.contains(a));
                let ia = choose|ia: int| 0 <= ia < oa.len() && oa[ia] == a;
                assert(oa[ia] == a);
            }
            assert forall|i: int| 0 <= i < self.job_rows().len() implies has_key(
                self.app_rows(),
                app_id_key(),
                (#[trigger] self.job_rows()[i]).app_id@,
            ) by {
                assert(pj(self.job_rows()[i]));
            }
        }
    }

    /// All devices, in ascending order of name.
    pub fn list_devices(&self) -> (r: Vec<DeviceRow>)
        ensures
            sorted_by(r@, name_of::<DeviceRow>()),
            r@.len() == self.device_rows().len(),
            same_devices(r@, self.device_rows()),
    {
        let mut copies: Vec<DeviceRow> = Vec::new();
        let mut i: usize = 0;
        while i < self.devices.len()
            invariant
                i <= self.device_rows().len(),
                copies@.len() == i,
                forall|k: int| 0 <= k < i ==> (#[trigger] copies@[k])@ == self.device_rows()[k]@,
            decreases self.device_rows().len() - i,
        {
            copies.push(self.devices[i].duplicate());
            i = i + 1;
        }
        let ghost c = copies@;
        let r = sort_by_name(copies);
        proof {
            lemma_same_members(r@, c);
            reveal(same_devices);
            assert forall|k: int| 0 <= k < r@.len() implies #[trigger] device_listed(self.device_rows(), r@[k]@) by {
                let i = choose|i: int| 0 <= i < c.len() && c[i] == r@[k];
                assert(c[i]@ == self.device_rows()[i]@);
            }
            assert forall|i: int| 0 <= i < self.device_rows().len() implies #[trigger] device_listed(r@, self.device_rows()[i]@) by {
                let k = choose|k: int| 0 <= k < r@.len() && r@[k] == c[i];
                assert(r@[k]@ == c[i]@);
            }
        }
        r
    }
}


impl Named for AccountRow {
    open spec fn sort_name(&self) -> Seq<char> {
        self.apple_id@
    }

    fn name_text(&self) -> (r: &str) {
        self.apple_id.as_str()
    }
}

/// The view of an optional string slice.
pub open spec fn opt_str_view(o: Option<&str>) -> Option<Seq<char>> {
    match o {
        Some(s) => Some(s@),
        None => None,
    }
}

/// An owned copy of an optional string slice.
pub fn opt_to_owned(o: Option<&str>) -> (r: Option<String>)
    ensures
        opt_view(r) == opt_str_view(o),
{
    match o {
        Some(s) => Some(s.to_owned()),
        None => None,
    }
}

/// The account rows of the account entries.
pub open spec fn account_rows(accounts: Seq<AccountEntry>) -> Seq<AccountRow> {
    accounts.map_values(|e: AccountEntry| e.row)
}

/// The app at `k` after the account `id` was removed: it no longer names it.
pub open spec fn app_unlinked(a: AppRow, id: Seq<char>) -> AppRow {
    if opt_view(a.account_id) == Some(id) {
        AppRow { account_id: None, ..a }
    } else {
        a
    }
}

impl Registry {
    /// The position of the account with identifier `id`.
    pub fn find_account(&self, id: &str) -> (r: Option<usize>)
        ensures
            match r {
                Some(i) => i < self.account_entries().len() && self.account_entries()[i as int].row.id@ == id@,
                None => !has_key(self.account_entries(), account_id_key(), id@),
            },
    {
        let mut i: usize = 0;
        while i < self.accounts.len()
            invariant
                i <= self.account_entries().len(),
                forall|k: int| 0 <= k < i ==> self.account_entries()[k].row.id@ != id@,
            decreases self.account_entries().len() - i,
        {
            if str_eq(self.accounts[i].row.id.as_str(), id) {
                return Some(i);
            }
            i = i + 1;
        }
        None
    }

    fn find_apple_id(&self, apple_id: &str) -> (r: Option<usize>)
        ensures
            match r {
                Some(i) => i < self.account_entries().len() && self.account_entries()[i as int].row.apple_id@ == apple_id@,
                None => !has_key(self.account_entries(), account_apple_key(), apple_id@),
            },
    {
        let mut i: usize = 0;
        while i < self.accounts.len()
            invariant
                i <= self.account_entries().len(),
                forall|k: int| 0 <= k < i ==> self.account_entries()[k].row.apple_id@ != apple_id@,
            decreases self.account_entries().len() - i,
        {
            if str_eq(self.accounts[i].row.apple_id.as_str(), apple_id) {
                return Some(i);
            }
            i = i + 1;
        }
        None
    }

    /// Stores an Apple account's session. An account already stored under the
    /// same Apple ID keeps its identifier and takes the new session and team;
    /// otherwise a new account is added, refused when `id` is taken.
    pub fn insert_account(
        &mut self,
        id: &str,
        apple_id: &str,
        session_blob: &[u8],
        team_id: Option<&str>,
        team_name: Option<&str>,
    ) -> (r: Result<(), DbError>)
        requires
            old(self).wf(),
        ensures
            final(self).wf(),
            final(self).device_rows() == old(self).device_rows(),
            final(self).app_rows() == old(self).app_rows(),
            final(self).job_rows() == old(self).job_rows(),
            has_key(old(self).account_entries(), account_apple_key(), apple_id@) ==> r is Ok && exists|i: int|
                0 <= i < old(self).account_entries().len() && old(self).account_entries()[i].row.apple_id@ == apple_id@
                    && final(self).account_entries() == old(self).account_entries().update(i, #[trigger] final(self).account_entries()[i])
                    && final(self).account_entries()[i].row.id == old(self).account_entries()[i].row.id
                    && final(self).account_entries()[i].row.apple_id == old(self).account_entries()[i].row.apple_id
                    && opt_view(final(self).account_entries()[i].row.team_id) == opt_str_view(team_id)
                    && opt_view(final(self).account_entries()[i].row.team_name) == opt_str_view(team_name)
                    && final(self).account_entries()[i].session_blob@ == session_blob@,
            !has_key(old(self).account_entries(), account_apple_key(), apple_id@) ==> {
                if has_key(old(self).account_entries(), account_id_key(), id@) {
                    r == Err::<(), DbError>(DbError::Conflict) && final(self).account_entries() == old(self).account_entries()
                } else {
                    &&& r is Ok
                    &&& final(self).account_entries().drop_last() == old(self).account_entries()
                    &&& final(self).account_entries().len() == old(self).account_entries().len() + 1
                    &&& final(self).account_entries().last().row.id@ == id@
                    &&& final(self).account_entries().last().row.apple_id@ == apple_id@
                    &&& opt_view(final(self).account_entries().last().row.team_id) == opt_str_view(team_id)
                    &&& opt_view(final(self).account_entries().last().row.team_name) == opt_str_view(team_name)
                    &&& final(self).account_entries().last().session_blob@ == session_blob@
                }
            },
    {
        let ghost old_accounts = self.account_entries();
        if let Some(i) = self.find_apple_id(apple_id) {
            self.accounts[i].session_blob = vstd::slice::slice_to_vec(session_blob);
            self.accounts[i].row.team_id = opt_to_owned(team_id);
            self.accounts[i].row.team_name = opt_to_owned(team_name);
            proof {
                assert(self.account_entries() =~= old_accounts.update(i as int, self.account_entries()[i as int]));
                lemma_update_keeps_distinct(old_accounts, i as int, self.account_entries()[i as int], account_id_key());
                lemma_update_keeps_distinct(old_accounts, i as int, self.account_entries()[i as int], account_apple_key());
                assert forall|k: int|
                    0 <= k < self.app_rows().len() && (#[trigger] self.app_rows()[k]).account_id is Some implies has_key(
                        self.account_entries(),
                        account_id_key(),
                        self.app_rows()[k].account_id->0@,
                    ) by {
                    let m = choose|m: int|
                        0 <= m < old_accounts.len() && account_id_key()(#[trigger] old_accounts[m])
                            == self.app_rows()[k].account_id->0@;
                    assert(account_id_key()(self.account_entries()[m]) == account_id_key()(old_accounts[m]));
                }
            }
            return Ok(());
        }
        if self.find_account(id).is_some() {
            return Err(DbError::Conflict);
        }
        let e = AccountEntry {
            row: AccountRow {
                id: id.to_owned(),
                apple_id: apple_id.to_owned(),
                team_id: opt_to_owned(team_id),
                team_name: opt_to_owned(team_name),
            },
            session_blob: vstd::slice::slice_to_vec(session_blob),
        };
        proof {
            lemma_push_keeps_distinct(old_accounts, e, account_id_key());
            lemma_push_keeps_distinct(old_accounts, e, account_apple_key());
        }
        self.accounts.push(e);
        proof {
            assert(self.account_entries().drop_last() =~= old_accounts);
            assert forall|k: int|
                0 <= k < self.app_rows().len() && (#[trigger] self.app_rows()[k]).account_id is Some implies has_key(
                    self.account_entries(),
                    account_id_key(),
                    self.app_rows()[k].account_id->0@,
                ) by {
                let m = choose|m: int|
                    0 <= m < old_accounts.len() && account_id_key()(#[trigger] old_accounts[m])
                        == self.app_rows()[k].account_id->0@;
                assert(self.account_entries()[m] == old_accounts[m]);
            }
        }
        Ok(())
    }

    /// All accounts, in ascending order of Apple ID.
    pub fn list_accounts(&self) -> (r: Vec<AccountRow>)
        ensures
            sorted_by(r@, name_of::<AccountRow>()),
            r@.to_multiset() == account_rows(self.account_entries()).to_multiset(),
            r@.len() == self.account_entries().len(),
    {
        let mut rows: Vec<AccountRow> = Vec::new();
        let mut i: usize = 0;
        while i < self.accounts.len()
            invariant
                i <= self.account_entries().len(),
                rows@ == account_rows(self.account_entries()).take(i as int),
            decreases self.account_entries().len() - i,
        {
            rows.push(self.accounts[i].row.clone());
            i = i + 1;
            assert(rows@ =~= account_rows(self.account_entries()).take(i as int));
        }
        assert(account_rows(self.account_entries()).take(i as int) =~= account_rows(self.account_entries()));
        sort_by_name(rows)
    }

    /// The stored (encrypted) session of account `id`.
    pub fn get_account_session(&self, id: &str) -> (r: Option<Vec<u8>>)
        ensures
            match r {
                Some(b) => exists|i: int|
                    0 <= i < self.account_entries().len() && self.account_entries()[i].row.id@ == id@
                        && b@ == #[trigger] self.account_entries()[i].session_blob@,
                None => !has_key(self.account_entries(), account_id_key(), id@),
            },
    {
        match self.find_account(id) {
            Some(i) => Some(clone_bytes(&self.accounts[i].session_blob)),
            None => None,
        }
    }

    /// The Apple ID and stored session of account `id`.
    pub fn account_credentials(&self, id: &str) -> (r: Option<(String, Vec<u8>)>)
        ensures
            match r {
                Some((apple_id, b)) => exists|i: int|
                    0 <= i < self.account_entries().len() && self.account_entries()[i].row.id@ == id@
                        && apple_id@ == self.account_entries()[i].row.apple_id@
                        && b@ == #[trigger] self.account_entries()[i].session_blob@,
                None => !has_key(self.account_entries(), account_id_key(), id@),
            },
    {
        match self.find_account(id) {
            Some(i) => Some((self.accounts[i].row.apple_id.clone(), clone_bytes(&self.accounts[i].session_blob))),
            None => None,
        }
    }

    /// Whether account `id` exists.
    pub fn account_exists(&self, id: &str) -> (r: bool)
        ensures
            r == has_key(self.account_entries(), account_id_key(), id@),
    {
        match self.find_account(id) {
            Some(i) => {
                assert(account_id_key()(self.account_entries()[i as int]) == id@);
                true
            },
            None => false,
        }
    }

    /// Removes account `id`; apps that named it keep running but no longer
    /// name an account.
    pub fn delete_account(&mut self, id: &str)
        requires
            old(self).wf(),
        ensures
            final(self).wf(),
            final(self).account_entries() == (match old(self).find_account_spec(id@) {
                Some(i) => old(self).account_entries().remove(i),
                None => old(self).account_entries(),
            }),
            final(self).app_rows().len() == old(self).app_rows().len(),
            forall|k: int| 0 <= k < old(self).app_rows().len() ==> #[trigger] final(self).app_rows()[k] == app_unlinked(old(self).app_rows()[k], id@),
            final(self).device_rows() == old(self).device_rows(),
            final(self).job_rows() == old(self).job_rows(),
    {
        let ghost old_self = *self;
        let found = self.find_account(id);
        let ghost i0 = match found { Some(i) => i as int, None => 0 };
        proof {
            if found is Some {
                assert(account_id_key()(old_self.account_entries()[i0]) == id@);
                assert forall|m: int| 0 <= m < old_self.account_entries().len() && m != i0 implies old_self.account_entries()[m].row.id@ != id@ by {
                    assert(account_id_key()(old_self.account_entries()[m]) != account_id_key()(old_self.account_entries()[i0]));
                }
            }
        }
        if let Some(i) = found {
            self.accounts.remove(i);
            proof {
                lemma_remove_keeps_distinct(old_self.account_entries(), i as int, account_id_key());
                lemma_remove_keeps_distinct(old_self.account_entries(), i as int, account_apple_key());
            }
        }
        let ghost accounts_after = self.accounts;
        let mut k: usize = 0;
        while k < self.apps.len()
            invariant
                k <= self.app_rows().len(),
                self.accounts == accounts_after,
                self.devices == old_self.devices,
                self.jobs == old_self.jobs,
                self.app_rows().len() == old_self.app_rows().len(),
                forall|m: int| 0 <= m < k ==> #[trigger] self.app_rows()[m] == app_unlinked(old_self.app_rows()[m], id@),
                forall|m: int| k <= m < self.app_rows().len() ==> #[trigger] self.app_rows()[m] == old_self.app_rows()[m],
            decreases self.app_rows().len() - k,
        {
            let unlink = match &self.apps[k].account_id {
                Some(a) => str_eq(a.as_str(), id),
                None => false,
            };
            if unlink {
                self.apps[k].account_id = None;
            }
            k = k + 1;
        }
        proof {
            let oa = old_self.app_rows();
            assert forall|a: int, b: int|
                0 <= a < self.app_rows().len() && 0 <= b < self.app_rows().len() && a != b implies app_id_key()(self.app_rows()[a]) != app_id_key()(self.app_rows()[b])
                    && app_slot_key()(self.app_rows()[a]) != app_slot_key()(self.app_rows()[b]) by {
                assert(self.app_rows()[a] == app_unlinked(oa[a], id@));
                assert(self.app_rows()[b] == app_unlinked(oa[b], id@));
                assert(app_id_key()(oa[a]) != app_id_key()(oa[b]));
                assert(app_slot_key()(oa[a]) != app_slot_key()(oa[b]));
            }
            assert forall|m: int| 0 <= m < self.app_rows().len() implies has_key(
                self.device_rows(),
                device_id_key(),
                (#[trigger] self.app_rows()[m]).device_id@,
            ) by {
                assert(self.app_rows()[m] == app_unlinked(oa[m], id@));
                assert(has_key(self.device_rows(), device_id_key(), oa[m].device_id@));
            }
            assert forall|m: int|
                0 <= m < self.app_rows().len() && (#[trigger] self.app_rows()[m]).account_id is Some implies has_key(
                    self.account_entries(),
                    account_id_key(),
                    self.app_rows()[m].account_id->0@,
                ) by {
                assert(self.app_rows()[m] == app_unlinked(oa[m], id@));
                let acc = oa[m].account_id->0@;
                assert(acc != id@);
                let w = choose|w: int| 0 <= w < old_self.account_entries().len() && account_id_key()(#[trigger] old_self.account_entries()[w]) == acc;
                if found is Some {
                    old_self.account_entries().remove_ensures(i0);
                    assert(w != i0);
                    if w < i0 {
                        assert(self.account_entries()[w] == old_self.account_entries()[w]);
                    } else {
                        assert(self.account_entries()[w - 1] == old_self.account_entries()[w]);
                    }
                } else {
                    assert(self.account_entries()[w] == old_self.account_entries()[w]);
                }
            }
            assert forall|m: int| 0 <= m < self.job_rows().len() implies has_key(
                self.app_rows(),
                app_id_key(),
                (#[trigger] self.job_rows()[m]).app_id@,
            ) by {
                let w = choose|w: int| 0 <= w < oa.len() && app_id_key()(#[trigger] oa[w]) == self.job_rows()[m].app_id@;
                assert(self.app_rows()[w] == app_unlinked(oa[w], id@));
                assert(app_id_key()(self.app_rows()[w]) == app_id_key()(oa[w]));
            }
        }
    }

    /// The position of account `id`, as a spec function.
    pub open spec fn find_account_spec(&self, id: Seq<char>) -> Option<int> {
        if has_key(self.account_entries(), account_id_key(), id) {
            Some(choose|i: int| 0 <= i < self.account_entries().len() && account_id_key()(#[trigger] self.account_entries()[i]) == id)
        } else {
            None
        }
    }
}


impl Named for AppRow {
    open spec fn sort_name(&self) -> Seq<char> {
        self.display_name@
    }

    fn name_text(&self) -> (r: &str) {
        self.display_name.as_str()
    }
}

/// `new` where it is present, else `old` (SQL `COALESCE`).
pub open spec fn or_else<T>(new: Option<T>, old: Option<T>) -> Option<T> {
    if new is Some {
        new
    } else {
        old
    }
}

/// The apps on device `device_id`.
pub open spec fn apps_on_device(apps: Seq<AppRow>, device_id: Seq<char>) -> Seq<AppRow> {
    apps.filter(|a: AppRow| a.device_id@ == device_id)
}

/// The jobs not for app `id`.
pub open spec fn jobs_not_for(jobs: Seq<JobRow>, id: Seq<char>) -> Seq<JobRow> {
    jobs.filter(|j: JobRow| j.app_id@ != id)
}

/// The position of app `id` (meaningful when it exists).
pub open spec fn app_index(apps: Seq<AppRow>, id: Seq<char>) -> int {
    choose|i: int| 0 <= i < apps.len() && app_id_key()(#[trigger] apps[i]) == id
}

/// Some app other than the one at `i` sits on `device_id` with `bundle_id`.
pub open spec fn slot_taken_elsewhere(apps: Seq<AppRow>, i: int, device_id: Seq<char>, bundle_id: Seq<char>) -> bool {
    exists|j: int| 0 <= j < apps.len() && j != i && app_slot_key()(#[trigger] apps[j]) == (device_id, bundle_id)
}

/// The position of that other app.
pub open spec fn slot_index_elsewhere(apps: Seq<AppRow>, i: int, device_id: Seq<char>, bundle_id: Seq<char>) -> int {
    choose|j: int| 0 <= j < apps.len() && j != i && app_slot_key()(#[trigger] apps[j]) == (device_id, bundle_id)
}

/// An app confirmed installed at `now`: the first install time is kept, the
/// refresh time is `now`.
pub open spec fn installed_now(a: AppRow, now: i64) -> AppRow {
    AppRow {
        installed_at: Some(or_else(a.installed_at, Some(now))->0),
        last_refreshed: Some(now),
        ..a
    }
}

/// The surviving app when the app `from` turns out to be the app `into`
/// already on the device: it takes `from`'s name, and `from`'s version, IPA and
/// account where `from` has them, and counts as installed and refreshed at `now`.
pub open spec fn merged_app(from: AppRow, into: AppRow, now: i64) -> AppRow {
    AppRow {
        display_name: from.display_name,
        version: or_else(from.version, into.version),
        ipa_path: or_else(from.ipa_path, into.ipa_path),
        account_id: or_else(from.account_id, into.account_id),
        installed_at: Some(now),
        last_refreshed: Some(now),
        ..into
    }
}

/// The jobs after those of app `from` were handed to app `to`.
pub open spec fn jobs_moved(jobs: Seq<JobRow>, from: Seq<char>, to: String) -> Seq<JobRow> {
    jobs.map_values(|j: JobRow| if j.app_id@ == from { JobRow { app_id: to, ..j } } else { j })
}

/// The date before which an app's last install or refresh must lie for it to
/// need a refresh: `window_days` before its seven-day certificate runs out.
pub open spec fn refresh_threshold(now: int, window_days: int) -> int {
    now - (crate::expiry::CERT_LIFETIME_SECS - window_days * 86400)
}

/// An app needs a refresh when refreshing is enabled, its IPA is stored, it
/// has an account, it was installed, and its last refresh (or else its
/// install) lies before `threshold`.
pub open spec fn needs_refresh(a: AppRow, threshold: int) -> bool {
    &&& a.refresh_enabled
    &&& a.ipa_path is Some
    &&& a.account_id is Some
    &&& a.installed_at is Some
    &&& (match a.last_refreshed {
        Some(r) => r as int,
        None => a.installed_at->0 as int,
    }) < threshold
}

impl Registry {
    fn find_slot(&self, device_id: &str, bundle_id: &str) -> (r: Option<usize>)
        ensures
            match r {
                Some(i) => i < self.app_rows().len() && app_slot_key()(self.app_rows()[i as int]) == (device_id@, bundle_id@),
                None => !has_key(self.app_rows(), app_slot_key(), (device_id@, bundle_id@)),
            },
    {
        let mut i: usize = 0;
        while i < self.apps.len()
            invariant
                i <= self.app_rows().len(),
                forall|k: int| 0 <= k < i ==> app_slot_key()(self.app_rows()[k]) != (device_id@, bundle_id@),
            decreases self.app_rows().len() - i,
        {
            if str_eq(self.apps[i].device_id.as_str(), device_id) && str_eq(self.apps[i].bundle_id.as_str(), bundle_id) {
                return Some(i);
            }
            i = i + 1;
        }
        None
    }

    proof fn lemma_apps_keys_kept(&self, old_apps: Seq<AppRow>)
        requires
            self.app_rows().len() == old_apps.len(),
            forall|k: int| 0 <= k < old_apps.len() ==> app_id_key()(#[trigger] self.app_rows()[k]) == app_id_key()(old_apps[k])
                && app_slot_key()(self.app_rows()[k]) == app_slot_key()(old_apps[k])
                && self.app_rows()[k].account_id == old_apps[k].account_id,
            keys_distinct(old_apps, app_id_key()),
            keys_distinct(old_apps, app_slot_key()),
            apps_on_known_devices(old_apps, self.device_rows()),
            apps_on_known_accounts(old_apps, self.account_entries()),
            jobs_on_known_apps(self.job_rows(), old_apps),
        ensures
            keys_distinct(self.app_rows(), app_id_key()),
            keys_distinct(self.app_rows(), app_slot_key()),
            apps_on_known_devices(self.app_rows(), self.device_rows()),
            apps_on_known_accounts(self.app_rows(), self.account_entries()),
            jobs_on_known_apps(self.job_rows(), self.app_rows()),
    {
        let n = self.app_rows();
        assert forall|a: int, b: int| 0 <= a < n.len() && 0 <= b < n.len() && a != b implies
            app_id_key()(n[a]) != app_id_key()(n[b]) && app_slot_key()(n[a]) != app_slot_key()(n[b]) by {
            assert(app_id_key()(old_apps[a]) != app_id_key()(old_apps[b]));
            assert(app_slot_key()(old_apps[a]) != app_slot_key()(old_apps[b]));
        }
        assert forall|m: int| 0 <= m < n.len() implies has_key(self.device_rows(), device_id_key(), (#[trigger] n[m]).device_id@) by {
            assert(app_slot_key()(n[m]) == app_slot_key()(old_apps[m]));
            assert(has_key(self.device_rows(), device_id_key(), old_apps[m].device_id@));
        }
        assert forall|m: int| 0 <= m < n.len() && (#[trigger] n[m]).account_id is Some implies has_key(
            self.account_entries(), account_id_key(), n[m].account_id->0@) by {
            assert(old_apps[m].account_id is Some);
        }
        assert forall|m: int| 0 <= m < self.job_rows().len() implies has_key(n, app_id_key(), (#[trigger] self.job_rows()[m]).app_id@) by {
            let w = choose|w: int| 0 <= w < old_apps.len() && app_id_key()(#[trigger] old_apps[w]) == self.job_rows()[m].app_id@;
            assert(app_id_key()(n[w]) == app_id_key()(old_apps[w]));
        }
    }

    /// Records an app being installed on a device and returns the identifier of
    /// its row. An app already on the device under the same bundle identifier
    /// keeps its row and identifier: it takes the new name and version, and the
    /// new IPA and account where these are given. Otherwise a row is added
    /// under `id`, not yet installed and with refreshing enabled. Refused when
    /// the device or the named account does not exist, or a new row's
    /// identifier is taken.
    pub fn upsert_app(
        &mut self,
        id: &str,
        device_id: &str,
        bundle_id: &str,
        display_name: &str,
        version: Option<&str>,
        ipa_path: Option<&str>,
        account_id: Option<&str>,
    ) -> (r: Result<String, DbError>)
        requires
            old(self).wf(),
        ensures
            final(self).wf(),
            final(self).device_rows() == old(self).device_rows(),
            final(self).account_entries() == old(self).account_entries(),
            final(self).job_rows() == old(self).job_rows(),
            ({
                let refs_ok = has_key(old(self).device_rows(), device_id_key(), device_id@) && match account_id {
                    Some(a) => has_key(old(self).account_entries(), account_id_key(), a@),
                    None => true,
                };
                let slot = (device_id@, bundle_id@);
                if !refs_ok {
                    r == Err::<String, DbError>(DbError::MissingReference) && final(self).app_rows() == old(self).app_rows()
                } else if has_key(old(self).app_rows(), app_slot_key(), slot) {
                    let i = choose|i: int| 0 <= i < old(self).app_rows().len() && app_slot_key()(#[trigger] old(self).app_rows()[i]) == slot;
                    let o = old(self).app_rows()[i];
                    let n = final(self).app_rows()[i];
                    &&& r matches Ok(s) && s@ == o.id@
                    &&& final(self).app_rows() == old(self).app_rows().update(i, n)
                    &&& n.id == o.id && n.device_id == o.device_id && n.bundle_id == o.bundle_id
                    &&& n.display_name@ == display_name@
                    &&& opt_view(n.version) == opt_str_view(version)
                    &&& opt_view(n.ipa_path) == or_else(opt_str_view(ipa_path), opt_view(o.ipa_path))
                    &&& opt_view(n.account_id) == or_else(opt_str_view(account_id), opt_view(o.account_id))
                    &&& n.installed_at == o.installed_at && n.last_refreshed == o.last_refreshed
                    &&& n.refresh_enabled == o.refresh_enabled
                } else if has_key(old(self).app_rows(), app_id_key(), id@) {
                    r == Err::<String, DbError>(DbError::Conflict) && final(self).app_rows() == old(self).app_rows()
                } else {
                    let n = final(self).app_rows().last();
                    &&& r matches Ok(s) && s@ == id@
                    &&& final(self).app_rows().len() == old(self).app_rows().len() + 1
                    &&& final(self).app_rows().drop_last() == old(self).app_rows()
                    &&& n.id@ == id@ && n.device_id@ == device_id@ && n.bundle_id@ == bundle_id@
                    &&& n.display_name@ == display_name@
                    &&& opt_view(n.version) == opt_str_view(version)
                    &&& opt_view(n.ipa_path) == opt_str_view(ipa_path)
                    &&& opt_view(n.account_id) == opt_str_view(account_id)
                    &&& n.installed_at is None && n.last_refreshed is None && n.refresh_enabled
                }
            }),
    {
        if self.find_device(device_id).is_none() {
            return Err(DbError::MissingReference);
        }
        if let Some(a) = account_id {
            if self.find_account(a).is_none() {
                return Err(DbError::MissingReference);
            }
        }
        let ghost old_apps = self.app_rows();
        if let Some(i) = self.find_slot(device_id, bundle_id) {
            proof {
                assert forall|k: int| 0 <= k < old_apps.len() && app_slot_key()(#[trigger] old_apps[k]) == (device_id@, bundle_id@) implies k == i by {
                    if k != i {
                        assert(app_slot_key()(old_apps[k]) != app_slot_key()(old_apps[i as int]));
                    }
                }
            }
            self.apps[i].display_name = display_name.to_owned();
            self.apps[i].version = opt_to_owned(version);
            if ipa_path.is_some() {
                self.apps[i].ipa_path = opt_to_owned(ipa_path);
            }
            if account_id.is_some() {
                self.apps[i].account_id = opt_to_owned(account_id);
            }
            let r = self.apps[i].id.clone();
            proof {
                assert(self.app_rows() =~= old_apps.update(i as int, self.app_rows()[i as int]));
                assert forall|m: int| 0 <= m < old_apps.len() && (#[trigger] self.app_rows()[m]).account_id is Some implies has_key(
                    self.account_entries(), account_id_key(), self.app_rows()[m].account_id->0@) by {
                    if m == i && account_id is Some {
                    } else {
                        assert(old_apps[m].account_id == self.app_rows()[m].account_id);
                    }
                }
                let n = self.app_rows();
                assert forall|a: int, b: int| 0 <= a < n.len() && 0 <= b < n.len() && a != b implies
                    app_id_key()(n[a]) != app_id_key()(n[b]) && app_slot_key()(n[a]) != app_slot_key()(n[b]) by {
                    assert(app_id_key()(old_apps[a]) != app_id_key()(old_apps[b]));
                    assert(app_slot_key()(old_apps[a]) != app_slot_key()(old_apps[b]));
                }
                assert forall|m: int| 0 <= m < n.len() implies has_key(self.device_rows(), device_id_key(), (#[trigger] n[m]).device_id@) by {
                    assert(n[m].device_id == old_apps[m].device_id);
                    assert(has_key(self.device_rows(), device_id_key(), old_apps[m].device_id@));
                }
                assert forall|m: int| 0 <= m < self.job_rows().len() implies has_key(n, app_id_key(), (#[trigger] self.job_rows()[m]).app_id@) by {
                    let w = choose|w: int| 0 <= w < old_apps.len() && app_id_key()(#[trigger] old_apps[w]) == self.job_rows()[m].app_id@;
                    assert(app_id_key()(n[w]) == app_id_key()(old_apps[w]));
                }
            }
            return Ok(r);
        }
        if self.find_app(id).is_some() {
            return Err(DbError::Conflict);
        }
        let a = AppRow {
            id: id.to_owned(),
            device_id: device_id.to_owned(),
            bundle_id: bundle_id.to_owned(),
            display_name: display_name.to_owned(),
            version: opt_to_owned(version),
            ipa_path: opt_to_owned(ipa_path),
            account_id: opt_to_owned(account_id),
            installed_at: None,
            last_refreshed: None,
            refresh_enabled: true,
        };
        proof {
            lemma_push_keeps_distinct(old_apps, a, app_id_key());
            lemma_push_keeps_distinct(old_apps, a, app_slot_key());
        }
        self.apps.push(a);
        proof {
            let n = self.app_rows();
            assert(n.drop_last() =~= old_apps);
            assert forall|m: int| 0 <= m < n.len() implies has_key(self.device_rows(), device_id_key(), (#[trigger] n[m]).device_id@) by {
                if m < old_apps.len() {
                    assert(n[m] == old_apps[m]);
                }
            }
            assert forall|m: int| 0 <= m < n.len() && (#[trigger] n[m]).account_id is Some implies has_key(
                self.account_entries(), account_id_key(), n[m].account_id->0@) by {
                if m < old_apps.len() {
                    assert(n[m] == old_apps[m]);
                }
            }
            assert forall|m: int| 0 <= m < self.job_rows().len() implies has_key(n, app_id_key(), (#[trigger] self.job_rows()[m]).app_id@) by {
                let w = choose|w: int| 0 <= w < old_apps.len() && app_id_key()(#[trigger] old_apps[w]) == self.job_rows()[m].app_id@;
                assert(n[w] == old_apps[w]);
            }
        }
        Ok(id.to_owned())
    }

    /// A copy of app `id`, if there is one.
    pub fn get_app(&self, id: &str) -> (r: Option<AppRow>)
        ensures
            match r {
                Some(a) => exists|i: int| 0 <= i < self.app_rows().len() && self.app_rows()[i].id@ == id@ && a == #[trigger] self.app_rows()[i],
                None => !has_key(self.app_rows(), app_id_key(), id@),
            },
    {
        match self.find_app(id) {
            Some(i) => Some(self.apps[i].clone()),
            None => None,
        }
    }

    /// The apps on device `device_id`, in ascending order of display name.
    pub fn list_apps_for_device(&self, device_id: &str) -> (r: Vec<AppRow>)
        ensures
            sorted_by(r@, name_of::<AppRow>()),
            r@.to_multiset() == apps_on_device(self.app_rows(), device_id@).to_multiset(),
    {
        let ghost p = |a: AppRow| a.device_id@ == device_id@;
        let mut out: Vec<AppRow> = Vec::new();
        let mut i: usize = 0;
        assert(self.app_rows().take(0).filter(p) =~= Seq::<AppRow>::empty()) by {
            reveal(Seq::filter);
        }
        while i < self.apps.len()
            invariant
                i <= self.app_rows().len(),
                out@ == self.app_rows().take(i as int).filter(p),
                p == (|a: AppRow| a.device_id@ == device_id@),
            decreases self.app_rows().len() - i,
        {
            let a = &self.apps[i];
            proof {
                self.app_rows().take(i as int).lemma_filter_push(*a, p);
                assert(self.app_rows().take(i + 1) =~= self.app_rows().take(i as int).push(*a));
            }
            if str_eq(a.device_id.as_str(), device_id) {
                out.push(a.clone());
            }
            i = i + 1;
        }
        assert(self.app_rows().take(i as int) =~= self.app_rows());
        sort_by_name(out)
    }

    /// Turns automatic refreshing of app `id` on or off.
    pub fn set_app_refresh(&mut self, id: &str, enabled: bool)
        requires
            old(self).wf(),
        ensures
            final(self).wf(),
            final(self).device_rows() == old(self).device_rows(),
            final(self).account_entries() == old(self).account_entries(),
            final(self).job_rows() == old(self).job_rows(),
            final(self).app_rows() == (if has_key(old(self).app_rows(), app_id_key(), id@) {
                let i = app_index(old(self).app_rows(), id@);
                old(self).app_rows().update(i, AppRow { refresh_enabled: enabled, ..old(self).app_rows()[i] })
            } else {
                old(self).app_rows()
            }),
    {
        if let Some(i) = self.find_app(id) {
            let ghost old_apps = self.app_rows();
            proof {
                let j = app_index(old_apps, id@);
                if j != i {
                    assert(app_id_key()(old_apps[j]) != app_id_key()(old_apps[i as int]));
                }
            }
            self.apps[i].refresh_enabled = enabled;
            proof {
                assert(self.app_rows() =~= old_apps.update(i as int, AppRow { refresh_enabled: enabled, ..old_apps[i as int] }));
                self.lemma_apps_keys_kept(old_apps);
            }
        }
    }
}


impl Registry {
    /// Removes app `id` and its jobs.
    pub fn delete_app(&mut self, id: &str)
        requires
            old(self).wf(),
        ensures
            final(self).wf(),
            final(self).device_rows() == old(self).device_rows(),
            final(self).account_entries() == old(self).account_entries(),
            final(self).app_rows() == (if has_key(old(self).app_rows(), app_id_key(), id@) {
                old(self).app_rows().remove(app_index(old(self).app_rows(), id@))
            } else {
                old(self).app_rows()
            }),
            final(self).job_rows() == jobs_not_for(old(self).job_rows(), id@),
    {
        let ghost old_self = *self;
        let ghost pj = |j: JobRow| j.app_id@ != id@;
        if let Some(i) = self.find_app(id) {
            proof {
                let j = app_index(old_self.app_rows(), id@);
                if j != i {
                    assert(app_id_key()(old_self.app_rows()[j]) != app_id_key()(old_self.app_rows()[i as int]));
                }
                lemma_remove_keeps_distinct(old_self.app_rows(), i as int, app_id_key());
                lemma_remove_keeps_distinct(old_self.app_rows(), i as int, app_slot_key());
            }
            self.apps.remove(i);
        }
        let mut jobs: Vec<JobRow> = Vec::new();
        std::mem::swap(&mut jobs, &mut self.jobs);
        let mut keep: Vec<bool> = Vec::new();
        let mut k: usize = 0;
        while k < jobs.len()
            invariant
                k <= jobs@.len(),
                keep@.len() == k,
                forall|m: int| 0 <= m < k ==> keep@[m] == pj(#[trigger] jobs@[m]),
                pj == (|j: JobRow| j.app_id@ != id@),
            decreases jobs@.len() - k,
        {
            keep.push(!str_eq(jobs[k].app_id.as_str(), id));
            k = k + 1;
        }
        self.jobs = keep_flagged(jobs, &keep, Ghost(pj));
        proof {
            broadcast use vstd::seq_lib::group_filter_ensures;
            let oa = old_self.app_rows();
            let oj = old_self.job_rows();
            lemma_filter_keeps_distinct(oj, pj, job_id_key());
            let present = has_key(oa, app_id_key(), id@);
            let i0 = app_index(oa, id@);
            if present {
                oa.remove_ensures(i0);
            }
            assert forall|m: int| 0 <= m < self.app_rows().len() implies has_key(self.device_rows(), device_id_key(), (#[trigger] self.app_rows()[m]).device_id@) by {
                if present {
                    if m < i0 { assert(self.app_rows()[m] == oa[m]); } else { assert(self.app_rows()[m] == oa[m + 1]); }
                } else {
                    assert(self.app_rows()[m] == oa[m]);
                }
            }
            assert forall|m: int| 0 <= m < self.app_rows().len() && (#[trigger] self.app_rows()[m]).account_id is Some implies has_key(
                self.account_entries(), account_id_key(), self.app_rows()[m].account_id->0@) by {
                if present {
                    if m < i0 { assert(self.app_rows()[m] == oa[m]); } else { assert(self.app_rows()[m] == oa[m + 1]); }
                } else {
                    assert(self.app_rows()[m] == oa[m]);
                }
            }
            assert forall|m: int| 0 <= m < self.job_rows().len() implies has_key(self.app_rows(), app_id_key(), (#[trigger] self.job_rows()[m]).app_id@) by {
                let jb = self.job_rows()[m];
                assert(oj.contains(jb));
                assert(pj(jb));
                let w0 = choose|w0: int| 0 <= w0 < oj.len() && oj[w0] == jb;
                assert(oj[w0] == jb);
                let w = choose|w: int| 0 <= w < oa.len() && app_id_key()(#[trigger] oa[w]) == oj[w0].app_id@;
                if present {
                    assert(w != i0);
                    if w < i0 { assert(self.app_rows()[w] == oa[w]); } else { assert(self.app_rows()[w - 1] == oa[w]); }
                } else {
                    assert(self.app_rows()[w] == oa[w]);
                }
            }
        }
    }

    /// The apps whose certificate runs out within `window_days` days of `now`
    /// and can be refreshed, in table order.
    pub fn apps_needing_refresh_at(&self, window_days: i64, now: i64) -> (r: Vec<AppRow>)
        ensures
            r@ == self.app_rows().filter(|a: AppRow| needs_refresh(a, refresh_threshold(now as int, window_days as int))),
    {
        let threshold: i128 = now as i128 - (crate::expiry::CERT_LIFETIME_SECS as i128 - window_days as i128 * 86400);
        let ghost p = |a: AppRow| needs_refresh(a, refresh_threshold(now as int, window_days as int));
        let mut out: Vec<AppRow> = Vec::new();
        let mut i: usize = 0;
        assert(self.app_rows().take(0).filter(p) =~= Seq::<AppRow>::empty()) by {
            reveal(Seq::filter);
        }
        while i < self.apps.len()
            invariant
                i <= self.app_rows().len(),
                out@ == self.app_rows().take(i as int).filter(p),
                p == (|a: AppRow| needs_refresh(a, refresh_threshold(now as int, window_days as int))),
                threshold == refresh_threshold(now as int, window_days as int),
            decreases self.app_rows().len() - i,
        {
            let a = &self.apps[i];
            proof {
                self.app_rows().take(i as int).lemma_filter_push(*a, p);
                assert(self.app_rows().take(i + 1) =~= self.app_rows().take(i as int).push(*a));
            }
            let due = match a.installed_at {
                None => false,
                Some(installed) => {
                    let last: i64 = match a.last_refreshed {
                        Some(r) => r,
                        None => installed,
                    };
                    a.refresh_enabled && a.ipa_path.is_some() && a.account_id.is_some() && (last as i128) < threshold
                },
            };
            if due {
                out.push(a.clone());
            }
            i = i + 1;
        }
        assert(self.app_rows().take(i as int) =~= self.app_rows());
        out
    }

    /// The apps whose certificate runs out within `window_days` days and can be
    /// refreshed, measured against the current time.
    pub fn apps_needing_refresh(&self, window_days: i64) -> (r: Vec<AppRow>)
        ensures
            exists|now: i64|
                r@ == self.app_rows().filter(#[trigger] refresh_due(now as int, window_days as int)),
    {
        let now = now_unix_secs();
        let r = self.apps_needing_refresh_at(window_days, now);
        assert(r@ == self.app_rows().filter(refresh_due(now as int, window_days as int)));
        r
    }

    /// Marks app `app_id` as installed at `now`, under the bundle identifier the
    /// device reports for it, and returns the identifier of the row that
    /// stands for it afterwards. When another app on the same device already
    /// has that bundle identifier, the two are merged into that other app
    /// (which takes over the jobs), and its identifier is returned.
    #[verifier::rlimit(30)]
    pub fn mark_app_installed_at(&mut self, app_id: &str, real_bundle_id: &str, now: i64) -> (r: String)
        requires
            old(self).wf(),
        ensures
            final(self).wf(),
            final(self).device_rows() == old(self).device_rows(),
            final(self).account_entries() == old(self).account_entries(),
            ({
                let oa = old(self).app_rows();
                if !has_key(oa, app_id_key(), app_id@) {
                    r@ == app_id@ && *final(self) == *old(self)
                } else {
                    let i = app_index(oa, app_id@);
                    let row = oa[i];
                    if row.bundle_id@ == real_bundle_id@ {
                        &&& r@ == app_id@
                        &&& final(self).app_rows() == oa.update(i, installed_now(row, now))
                        &&& final(self).job_rows() == old(self).job_rows()
                    } else if slot_taken_elsewhere(oa, i, row.device_id@, real_bundle_id@) {
                        let j = slot_index_elsewhere(oa, i, row.device_id@, real_bundle_id@);
                        &&& r@ == oa[j].id@
                        &&& final(self).app_rows() == oa.update(j, merged_app(row, oa[j], now)).remove(i)
                        &&& final(self).job_rows() == jobs_moved(old(self).job_rows(), app_id@, oa[j].id)
                    } else {
                        &&& r@ == app_id@
                        &&& final(self).app_rows() == oa.update(i, final(self).app_rows()[i])
                        &&& final(self).app_rows()[i] == AppRow { bundle_id: final(self).app_rows()[i].bundle_id, ..installed_now(row, now) }
                        &&& final(self).app_rows()[i].bundle_id@ == real_bundle_id@
                        &&& final(self).job_rows() == old(self).job_rows()
                    }
                }
            }),
    {
        let ghost old_self = *self;
        let ghost oa = self.app_rows();
        let i = match self.find_app(app_id) {
            None => {
                return app_id.to_owned();
            },
            Some(i) => i,
        };
        proof {
            let j = app_index(oa, app_id@);
            if j != i {
                assert(app_id_key()(oa[j]) != app_id_key()(oa[i as int]));
            }
        }
        let installed: i64 = match self.apps[i].installed_at {
            Some(t) => t,
            None => now,
        };
        if str_eq(self.apps[i].bundle_id.as_str(), real_bundle_id) {
            self.apps[i].installed_at = Some(installed);
            self.apps[i].last_refreshed = Some(now);
            proof {
                assert(self.app_rows() =~= oa.update(i as int, installed_now(oa[i as int], now)));
                self.lemma_apps_keys_kept(oa);
            }
            return app_id.to_owned();
        }
        let mut j: usize = 0;
        let mut found = false;
        while j < self.apps.len() && !found
            invariant
                j <= self.app_rows().len(),
                self.app_rows() == oa,
                i < oa.len(),
                forall|k: int| 0 <= k < j ==> !(k != i && app_slot_key()(#[trigger] oa[k]) == (oa[i as int].device_id@, real_bundle_id@)),
                found ==> j < oa.len() && j != i && app_slot_key()(oa[j as int]) == (oa[i as int].device_id@, real_bundle_id@),
            decreases self.app_rows().len() - j, if found { 0int } else { 1int },
        {
            if j != i && str_eq(self.apps[j].device_id.as_str(), self.apps[i].device_id.as_str())
                && str_eq(self.apps[j].bundle_id.as_str(), real_bundle_id) {
                found = true;
            } else {
                j = j + 1;
            }
        }
        if found {
            proof {
                let j0 = slot_index_elsewhere(oa, i as int, oa[i as int].device_id@, real_bundle_id@);
                if j0 != j {
                    assert(app_slot_key()(oa[j0]) != app_slot_key()(oa[j as int]));
                }
            }
            let display_name = self.apps[i].display_name.clone();
            let version = crate::text::clone_opt_string(&self.apps[i].version);
            let ipa_path = crate::text::clone_opt_string(&self.apps[i].ipa_path);
            let account_id = crate::text::clone_opt_string(&self.apps[i].account_id);
            self.apps[j].display_name = display_name;
            if version.is_some() {
                self.apps[j].version = version;
            }
            if ipa_path.is_some() {
                self.apps[j].ipa_path = ipa_path;
            }
            if account_id.is_some() {
                self.apps[j].account_id = account_id;
            }
            self.apps[j].installed_at = Some(now);
            self.apps[j].last_refreshed = Some(now);
            let target = self.apps[j].id.clone();
            let ghost merged = oa.update(j as int, merged_app(oa[i as int], oa[j as int], now));
            assert(self.app_rows() =~= merged);
            let ghost oj = self.job_rows();
            let mut k: usize = 0;
            while k < self.jobs.len()
                invariant
                    k <= self.job_rows().len(),
                    self.job_rows().len() == oj.len(),
                    self.app_rows() == merged,
                    self.devices == old_self.devices,
                    self.accounts == old_self.accounts,
                    target == oa[j as int].id,
                    forall|m: int| 0 <= m < k ==> #[trigger] self.job_rows()[m] == jobs_moved(oj, app_id@, target)[m],
                    forall|m: int| k <= m < oj.len() ==> #[trigger] self.job_rows()[m] == oj[m],
                decreases self.job_rows().len() - k,
            {
                if str_eq(self.jobs[k].app_id.as_str(), app_id) {
                    self.jobs[k].app_id = target.clone();
                }
                k = k + 1;
            }
            assert(self.job_rows() =~= jobs_moved(oj, app_id@, target));
            self.apps.remove(i);
            proof {
                let n = self.app_rows();
                merged.remove_ensures(i as int);
                lemma_update_keeps_distinct(oa, j as int, merged_app(oa[i as int], oa[j as int], now), app_id_key());
                lemma_update_keeps_distinct(oa, j as int, merged_app(oa[i as int], oa[j as int], now), app_slot_key());
                lemma_remove_keeps_distinct(merged, i as int, app_id_key());
                lemma_remove_keeps_distinct(merged, i as int, app_slot_key());
                assert forall|m: int| 0 <= m < n.len() implies has_key(self.device_rows(), device_id_key(), (#[trigger] n[m]).device_id@) by {
                    let m0 = if m < i { m } else { m + 1 };
                    assert(n[m] == merged[m0]);
                    assert(merged[m0].device_id == oa[m0].device_id);
                    assert(has_key(self.device_rows(), device_id_key(), oa[m0].device_id@));
                }
                assert forall|m: int| 0 <= m < n.len() && (#[trigger] n[m]).account_id is Some implies has_key(
                    self.account_entries(), account_id_key(), n[m].account_id->0@) by {
                    let m0 = if m < i { m } else { m + 1 };
                    assert(n[m] == merged[m0]);
                    if m0 == j {
                        if oa[i as int].account_id is Some {
                            assert(has_key(self.account_entries(), account_id_key(), oa[i as int].account_id->0@));
                        } else {
                            assert(has_key(self.account_entries(), account_id_key(), oa[j as int].account_id->0@));
                        }
                    } else {
                        assert(merged[m0] == oa[m0]);
                    }
                }
                let tj = if j < i { j as int } else { j - 1 };
                assert(n[tj] == merged[j as int]);
                assert(app_id_key()(n[tj]) == target@);
                assert forall|m: int| 0 <= m < self.job_rows().len() implies has_key(n, app_id_key(), (#[trigger] self.job_rows()[m]).app_id@) by {
                    let jb = oj[m];
                    if jb.app_id@ == app_id@ {
                        assert(self.job_rows()[m].app_id == target);
                    } else {
                        assert(self.job_rows()[m] == jb);
                        let w = choose|w: int| 0 <= w < oa.len() && app_id_key()(#[trigger] oa[w]) == jb.app_id@;
                        assert(w != i);
                        let w1 = if w < i { w } else { w - 1 };
                        assert(n[w1] == merged[w]);
                        assert(app_id_key()(merged[w]) == app_id_key()(oa[w]));
                    }
                }
            }
            return target;
        }
        self.apps[i].bundle_id = real_bundle_id.to_owned();
        self.apps[i].installed_at = Some(installed);
        self.apps[i].last_refreshed = Some(now);
        proof {
            let n = self.app_rows();
            assert(n =~= oa.update(i as int, n[i as int]));
            assert forall|a: int, b: int| 0 <= a < n.len() && 0 <= b < n.len() && a != b implies
                app_id_key()(n[a]) != app_id_key()(n[b]) && app_slot_key()(n[a]) != app_slot_key()(n[b]) by {
                assert(app_id_key()(oa[a]) != app_id_key()(oa[b]));
                assert(app_slot_key()(oa[a]) != app_slot_key()(oa[b]));
                if a == i {
                    assert(!(b != i && app_slot_key()(oa[b]) == (oa[i as int].device_id@, real_bundle_id@)));
                }
                if b == i {
                    assert(!(a != i && app_slot_key()(oa[a]) == (oa[i as int].device_id@, real_bundle_id@)));
                }
            }
            assert forall|m: int| 0 <= m < n.len() implies has_key(self.device_rows(), device_id_key(), (#[trigger] n[m]).device_id@) by {
                assert(n[m].device_id == oa[m].device_id);
                assert(has_key(self.device_rows(), device_id_key(), oa[m].device_id@));
            }
            assert forall|m: int| 0 <= m < n.len() && (#[trigger] n[m]).account_id is Some implies has_key(
                self.account_entries(), account_id_key(), n[m].account_id->0@) by {
                assert(n[m].account_id == oa[m].account_id);
            }
            assert forall|m: int| 0 <= m < self.job_rows().len() implies has_key(n, app_id_key(), (#[trigger] self.job_rows()[m]).app_id@) by {
                let w = choose|w: int| 0 <= w < oa.len() && app_id_key()(#[trigger] oa[w]) == self.job_rows()[m].app_id@;
                assert(app_id_key()(n[w]) == app_id_key()(oa[w]));
            }
        }
        app_id.to_owned()
    }

    /// Marks app `app_id` as installed now (see `mark_app_installed_at`).
    pub fn mark_app_installed(&mut self, app_id: &str, real_bundle_id: &str) -> (r: String)
        requires
            old(self).wf(),
        ensures
            final(self).wf(),
            exists|now: i64| #[trigger] installed_mark(*old(self), *final(self), app_id@, real_bundle_id@, now, r@),
    {
        let now = now_unix_secs();
        let r = self.mark_app_installed_at(app_id, real_bundle_id, now);
        assert(installed_mark(*old(self), *self, app_id@, real_bundle_id@, now, r@));
        r
    }
}

/// The predicate that selects the apps needing a refresh at `now`.
pub open spec fn refresh_due(now: int, window_days: int) -> spec_fn(AppRow) -> bool {
    |a: AppRow| needs_refresh(a, refresh_threshold(now, window_days))
}

/// `after` is `before` with app `app_id` marked installed at `now` under
/// `real_bundle_id`, and `r` the identifier of the app that stands for it.
pub open spec fn installed_mark(before: Registry, after: Registry, app_id: Seq<char>, real_bundle_id: Seq<char>, now: i64, r: Seq<char>) -> bool {
    &&& after.device_rows() == before.device_rows()
    &&& after.account_entries() == before.account_entries()
    &&& {
        let oa = before.app_rows();
        if !has_key(oa, app_id_key(), app_id) {
            r == app_id && after == before
        } else {
            let i = app_index(oa, app_id);
            let row = oa[i];
            if row.bundle_id@ == real_bundle_id {
                &&& r == app_id
                &&& after.app_rows() == oa.update(i, installed_now(row, now))
                &&& after.job_rows() == before.job_rows()
            } else if slot_taken_elsewhere(oa, i, row.device_id@, real_bundle_id) {
                let j = slot_index_elsewhere(oa, i, row.device_id@, real_bundle_id);
                &&& r == oa[j].id@
                &&& after.app_rows() == oa.update(j, merged_app(row, oa[j], now)).remove(i)
                &&& after.job_rows() == jobs_moved(before.job_rows(), app_id, oa[j].id)
            } else {
                &&& r == app_id
                &&& after.app_rows() == oa.update(i, after.app_rows()[i])
                &&& after.app_rows()[i] == AppRow { bundle_id: after.app_rows()[i].bundle_id, ..installed_now(row, now) }
                &&& after.app_rows()[i].bundle_id@ == real_bundle_id
                &&& after.job_rows() == before.job_rows()
            }
        }
    }
}


/// Where a job's status puts it in the queue: running jobs first, then queued
/// ones, then the finished ones.
pub open spec fn status_rank(status: Seq<char>) -> int {
    if status == "running"@ {
        0
    } else if status == "queued"@ {
        1
    } else {
        2
    }
}

/// The jobs of rank `r`, most recently created first.
pub open spec fn newest_with_rank(jobs: Seq<JobRow>, r: int) -> Seq<JobRow>
    decreases jobs.len(),
{
    if jobs.len() == 0 {
        Seq::empty()
    } else {
        let rest = newest_with_rank(jobs.drop_last(), r);
        if status_rank(jobs.last().status@) == r {
            seq![jobs.last()] + rest
        } else {
            rest
        }
    }
}

/// All jobs in the order the queue lists them.
pub open spec fn queue_order(jobs: Seq<JobRow>) -> Seq<JobRow> {
    newest_with_rank(jobs, 0) + newest_with_rank(jobs, 1) + newest_with_rank(jobs, 2)
}

/// How many entries a listing of `n` jobs holds under `limit` (a negative
/// limit sets no bound).
pub open spec fn limited_len(n: nat, limit: i64) -> nat {
    if limit < 0 || limit >= n {
        n
    } else {
        limit as nat
    }
}

/// The position of device `id` (meaningful when it exists).
pub open spec fn device_index(devices: Seq<DeviceRow>, id: Seq<char>) -> int {
    choose|i: int| 0 <= i < devices.len() && device_id_key()(#[trigger] devices[i]) == id
}

/// `c` shows job `j` with the name of its app and the name of the app's device.
pub open spec fn job_in_context(c: JobWithContext, j: JobRow, apps: Seq<AppRow>, devices: Seq<DeviceRow>) -> bool {
    let a = apps[app_index(apps, j.app_id@)];
    let d = devices[device_index(devices, a.device_id@)];
    &&& c.id == j.id && c.app_id == j.app_id && c.kind == j.kind && c.status == j.status
    &&& c.error == j.error && c.started_at == j.started_at && c.finished_at == j.finished_at
    &&& c.progress == j.progress && c.stage == j.stage
    &&& c.app_name == a.display_name && c.device_id == a.device_id && c.device_name == d.name
}

/// A job whose status is now `status`: a job that starts running records when
/// it started; any other status records when the job finished and its error.
pub open spec fn job_status_set(o: JobRow, n: JobRow, status: Seq<char>, error: Option<Seq<char>>, now: i64) -> bool {
    &&& n.status@ == status
    &&& n.id == o.id && n.app_id == o.app_id && n.kind == o.kind
    &&& n.progress == o.progress && n.stage == o.stage
    &&& if status == "running"@ {
        n.started_at == Some(now) && n.error == o.error && n.finished_at == o.finished_at
    } else {
        opt_view(n.error) == error && n.finished_at == Some(now) && n.started_at == o.started_at
    }
}

impl Registry {
    /// The position of job `id`.
    pub fn find_job(&self, id: &str) -> (r: Option<usize>)
        ensures
            match r {
                Some(i) => i < self.job_rows().len() && self.job_rows()[i as int].id@ == id@,
                None => !has_key(self.job_rows(), job_id_key(), id@),
            },
    {
        let mut i: usize = 0;
        while i < self.jobs.len()
            invariant
                i <= self.job_rows().len(),
                forall|k: int| 0 <= k < i ==> self.job_rows()[k].id@ != id@,
            decreases self.job_rows().len() - i,
        {
            if str_eq(self.jobs[i].id.as_str(), id) {
                return Some(i);
            }
            i = i + 1;
        }
        None
    }

    proof fn lemma_jobs_keys_kept(&self, old_jobs: Seq<JobRow>)
        requires
            self.job_rows().len() == old_jobs.len(),
            forall|k: int| 0 <= k < old_jobs.len() ==> (#[trigger] self.job_rows()[k]).id == old_jobs[k].id
                && self.job_rows()[k].app_id == old_jobs[k].app_id,
            keys_distinct(old_jobs, job_id_key()),
            jobs_on_known_apps(old_jobs, self.app_rows()),
        ensures
            keys_distinct(self.job_rows(), job_id_key()),
            jobs_on_known_apps(self.job_rows(), self.app_rows()),
    {
        let n = self.job_rows();
        assert forall|a: int, b: int| 0 <= a < n.len() && 0 <= b < n.len() && a != b implies job_id_key()(n[a]) != job_id_key()(n[b]) by {
            assert(job_id_key()(old_jobs[a]) != job_id_key()(old_jobs[b]));
        }
        assert forall|m: int| 0 <= m < n.len() implies has_key(self.app_rows(), app_id_key(), (#[trigger] n[m]).app_id@) by {
            assert(n[m].app_id == old_jobs[m].app_id);
            assert(has_key(self.app_rows(), app_id_key(), old_jobs[m].app_id@));
        }
    }

    /// Queues a job of `kind` for app `app_id`. Refused when `id` is taken or
    /// the app does not exist.
    pub fn insert_job(&mut self, id: &str, app_id: &str, kind: &str) -> (r: Result<(), DbError>)
        requires
            old(self).wf(),
        ensures
            final(self).wf(),
            final(self).device_rows() == old(self).device_rows(),
            final(self).account_entries() == old(self).account_entries(),
            final(self).app_rows() == old(self).app_rows(),
            if has_key(old(self).job_rows(), job_id_key(), id@) {
                r == Err::<(), DbError>(DbError::Conflict) && final(self).job_rows() == old(self).job_rows()
            } else if !has_key(old(self).app_rows(), app_id_key(), app_id@) {
                r == Err::<(), DbError>(DbError::MissingReference) && final(self).job_rows() == old(self).job_rows()
            } else {
                let j = final(self).job_rows().last();
                &&& r is Ok
                &&& final(self).job_rows().len() == old(self).job_rows().len() + 1
                &&& final(self).job_rows().drop_last() == old(self).job_rows()
                &&& j.id@ == id@ && j.app_id@ == app_id@ && j.kind@ == kind@
                &&& j.status@ == "queued"@
                &&& j.error is None && j.started_at is None && j.finished_at is None
                &&& j.progress == 0 && j.stage is None
            },
    {
        if self.find_job(id).is_some() {
            return Err(DbError::Conflict);
        }
        if self.find_app(app_id).is_none() {
            return Err(DbError::MissingReference);
        }
        let j = JobRow {
            id: id.to_owned(),
            app_id: app_id.to_owned(),
            kind: kind.to_owned(),
            status: String::from_str("queued"),
            error: None,
            started_at: None,
            finished_at: None,
            progress: 0,
            stage: None,
        };
        let ghost oj = self.job_rows();
        proof {
            lemma_push_keeps_distinct(oj, j, job_id_key());
        }
        self.jobs.push(j);
        proof {
            assert(self.job_rows().drop_last() =~= oj);
            assert forall|m: int| 0 <= m < self.job_rows().len() implies has_key(self.app_rows(), app_id_key(), (#[trigger] self.job_rows()[m]).app_id@) by {
                if m < oj.len() {
                    assert(self.job_rows()[m] == oj[m]);
                }
            }
        }
        Ok(())
    }

    /// Sets the status of job `id` at time `now`.
    pub fn update_job_status_at(&mut self, id: &str, status: &str, error: Option<&str>, now: i64)
        requires
            old(self).wf(),
        ensures
            final(self).wf(),
            final(self).device_rows() == old(self).device_rows(),
            final(self).account_entries() == old(self).account_entries(),
            final(self).app_rows() == old(self).app_rows(),
            final(self).job_rows().len() == old(self).job_rows().len(),
            forall|k: int| 0 <= k < old(self).job_rows().len() ==> if (#[trigger] old(self).job_rows()[k]).id@ == id@ {
                job_status_set(old(self).job_rows()[k], final(self).job_rows()[k], status@, opt_str_view(error), now)
            } else {
                final(self).job_rows()[k] == old(self).job_rows()[k]
            },
    {
        if let Some(i) = self.find_job(id) {
            let ghost oj = self.job_rows();
            self.jobs[i].status = status.to_owned();
            if str_eq(status, "running") {
                self.jobs[i].started_at = Some(now);
            } else {
                self.jobs[i].error = opt_to_owned(error);
                self.jobs[i].finished_at = Some(now);
            }
            proof {
                self.lemma_jobs_keys_kept(oj);
                assert forall|k: int| 0 <= k < oj.len() && k != i implies (#[trigger] oj[k]).id@ != id@ by {
                    assert(job_id_key()(oj[k]) != job_id_key()(oj[i as int]));
                }
            }
        }
    }

    /// Sets the status of job `id`, stamped with the current time.
    pub fn update_job_status(&mut self, id: &str, status: &str, error: Option<&str>)
        requires
            old(self).wf(),
        ensures
            final(self).wf(),
            final(self).device_rows() == old(self).device_rows(),
            final(self).account_entries() == old(self).account_entries(),
            final(self).app_rows() == old(self).app_rows(),
            final(self).job_rows().len() == old(self).job_rows().len(),
            exists|now: i64| #[trigger] job_statuses_set(old(self).job_rows(), final(self).job_rows(), id@, status@, opt_str_view(error), now),
    {
        let now = now_unix_secs();
        self.update_job_status_at(id, status, error, now);
        assert(job_statuses_set(old(self).job_rows(), self.job_rows(), id@, status@, opt_str_view(error), now));
    }

    /// Records the progress (percent) and stage of job `id`.
    pub fn update_job_progress(&mut self, id: &str, progress: i64, stage: &str)
        requires
            old(self).wf(),
        ensures
            final(self).wf(),
            final(self).device_rows() == old(self).device_rows(),
            final(self).account_entries() == old(self).account_entries(),
            final(self).app_rows() == old(self).app_rows(),
            final(self).job_rows().len() == old(self).job_rows().len(),
            forall|k: int| 0 <= k < old(self).job_rows().len() ==> if (#[trigger] old(self).job_rows()[k]).id@ == id@ {
                final(self).job_rows()[k] == JobRow { progress: progress, stage: final(self).job_rows()[k].stage, ..old(self).job_rows()[k] }
                    && opt_view(final(self).job_rows()[k].stage) == Some(stage@)
            } else {
                final(self).job_rows()[k] == old(self).job_rows()[k]
            },
    {
        if let Some(i) = self.find_job(id) {
            let ghost oj = self.job_rows();
            self.jobs[i].progress = progress;
            self.jobs[i].stage = Some(stage.to_owned());
            proof {
                self.lemma_jobs_keys_kept(oj);
                assert forall|k: int| 0 <= k < oj.len() && k != i implies (#[trigger] oj[k]).id@ != id@ by {
                    assert(job_id_key()(oj[k]) != job_id_key()(oj[i as int]));
                }
            }
        }
    }

    /// A copy of job `id`, if there is one.
    pub fn get_job(&self, id: &str) -> (r: Option<JobRow>)
        ensures
            match r {
                Some(j) => exists|i: int| 0 <= i < self.job_rows().len() && self.job_rows()[i].id@ == id@ && j == #[trigger] self.job_rows()[i],
                None => !has_key(self.job_rows(), job_id_key(), id@),
            },
    {
        match self.find_job(id) {
            Some(i) => Some(self.jobs[i].clone()),
            None => None,
        }
    }

    fn job_context(&self, j: &JobRow) -> (c: JobWithContext)
        requires
            self.wf(),
            has_key(self.app_rows(), app_id_key(), j.app_id@),
        ensures
            job_in_context(c, *j, self.app_rows(), self.device_rows()),
    {
        let ai = self.find_app(j.app_id.as_str()).unwrap();
        proof {
            let k = app_index(self.app_rows(), j.app_id@);
            if k != ai {
                assert(app_id_key()(self.app_rows()[k]) != app_id_key()(self.app_rows()[ai as int]));
            }
            assert(has_key(self.device_rows(), device_id_key(), self.app_rows()[ai as int].device_id@));
        }
        let a = &self.apps[ai];
        let di = self.find_device(a.device_id.as_str()).unwrap();
        proof {
            let k = device_index(self.device_rows(), a.device_id@);
            if k != di {
                assert(device_id_key()(self.device_rows()[k]) != device_id_key()(self.device_rows()[di as int]));
            }
        }
        JobWithContext {
            id: j.id.clone(),
            app_id: j.app_id.clone(),
            app_name: a.display_name.clone(),
            device_id: a.device_id.clone(),
            device_name: self.devices[di].name.clone(),
            kind: j.kind.clone(),
            status: j.status.clone(),
            error: crate::text::clone_opt_string(&j.error),
            started_at: j.started_at,
            finished_at: j.finished_at,
            progress: j.progress,
            stage: crate::text::clone_opt_string(&j.stage),
        }
    }

    fn push_rank(&self, out: &mut Vec<JobWithContext>, rank: u8, Ghost(prev): Ghost<Seq<JobRow>>)
        requires
            self.wf(),
            old(out)@.len() == prev.len(),
            forall|k: int| 0 <= k < prev.len() ==> job_in_context(#[trigger] old(out)@[k], prev[k], self.app_rows(), self.device_rows()),
        ensures
            final(out)@.len() == prev.len() + newest_with_rank(self.job_rows(), rank as int).len(),
            forall|k: int| 0 <= k < final(out)@.len() ==> job_in_context(
                #[trigger] final(out)@[k],
                (prev + newest_with_rank(self.job_rows(), rank as int))[k],
                self.app_rows(),
                self.device_rows(),
            ),
    {
        let jobs = &self.jobs;
        let ghost r = rank as int;
        let ghost emitted: Seq<JobRow> = Seq::empty();
        let mut i: usize = jobs.len();
        assert(jobs@.take(i as int) =~= jobs@);
        while i > 0
            invariant
                i <= jobs@.len(),
                self.wf(),
                jobs == &self.jobs,
                r == rank as int,
                newest_with_rank(jobs@, r) == emitted + newest_with_rank(jobs@.take(i as int), r),
                out@.len() == prev.len() + emitted.len(),
                forall|k: int| 0 <= k < out@.len() ==> job_in_context(#[trigger] out@[k], (prev + emitted)[k], self.app_rows(), self.device_rows()),
            decreases i,
        {
            let j = &jobs[i - 1];
            let ghost t = jobs@.take(i as int);
            assert(t.drop_last() =~= jobs@.take(i - 1));
            assert(t.last() == *j);
            let jr: u8 = if str_eq(j.status.as_str(), "running") {
                0
            } else if str_eq(j.status.as_str(), "queued") {
                1
            } else {
                2
            };
            assert(jr as int == status_rank(j.status@));
            if jr == rank {
                assert(has_key(self.app_rows(), app_id_key(), jobs@[i - 1].app_id@));
                let c = self.job_context(j);
                let ghost old_out = out@;
                out.push(c);
                proof {
                    let e2 = emitted.push(*j);
                    assert(newest_with_rank(t, r) == seq![*j] + newest_with_rank(jobs@.take(i - 1), r));
                    assert(emitted + newest_with_rank(t, r) =~= e2 + newest_with_rank(jobs@.take(i - 1), r));
                    assert forall|k: int| 0 <= k < out@.len() implies job_in_context(#[trigger] out@[k], (prev + e2)[k], self.app_rows(), self.device_rows()) by {
                        if k < old_out.len() {
                            assert(out@[k] == old_out[k]);
                            assert((prev + e2)[k] == (prev + emitted)[k]);
                        } else {
                            assert((prev + e2)[k] == *j);
                        }
                    }
                    emitted = e2;
                }
            } else {
                assert(newest_with_rank(t, r) == newest_with_rank(jobs@.take(i - 1), r));
            }
            i = i - 1;
        }
        assert(jobs@.take(0) =~= Seq::<JobRow>::empty());
        assert(newest_with_rank(jobs@.take(0), r) =~= Seq::<JobRow>::empty());
        assert(emitted =~= newest_with_rank(jobs@, r));
    }

    /// The job queue as the portal lists it: running jobs, then queued ones,
    /// then finished ones, each group most recent first, at most `limit` of
    /// them (all when `limit` is negative), each with its app's name and its
    /// device.
    pub fn list_jobs(&self, limit: i64) -> (r: Vec<JobWithContext>)
        requires
            self.wf(),
        ensures
            r@.len() == limited_len(queue_order(self.job_rows()).len(), limit),
            forall|k: int| 0 <= k < r@.len() ==> job_in_context(#[trigger] r@[k], queue_order(self.job_rows())[k], self.app_rows(), self.device_rows()),
    {
        let mut out: Vec<JobWithContext> = Vec::new();
        self.push_rank(&mut out, 0, Ghost(Seq::empty()));
        let ghost s0 = Seq::<JobRow>::empty() + newest_with_rank(self.job_rows(), 0);
        self.push_rank(&mut out, 1, Ghost(s0));
        let ghost s1 = s0 + newest_with_rank(self.job_rows(), 1);
        self.push_rank(&mut out, 2, Ghost(s1));
        let ghost s2 = s1 + newest_with_rank(self.job_rows(), 2);
        assert(s2 =~= queue_order(self.job_rows()));
        if limit >= 0 && (limit as u64) < (out.len() as u64) {
            out.truncate(limit as usize);
        }
        out
    }
}

/// Every job `id` of `old_jobs` has its status set in `new_jobs`, the others are unchanged.
pub open spec fn job_statuses_set(old_jobs: Seq<JobRow>, new_jobs: Seq<JobRow>, id: Seq<char>, status: Seq<char>, error: Option<Seq<char>>, now: i64) -> bool {
    &&& new_jobs.len() == old_jobs.len()
    &&& forall|k: int| 0 <= k < old_jobs.len() ==> if (#[trigger] old_jobs[k]).id@ == id {
        job_status_set(old_jobs[k], new_jobs[k], status, error, now)
    } else {
        new_jobs[k] == old_jobs[k]
    }
}


/// An app the scheduler picks is one whose certificate, counted from its last
/// refresh (or else its install), runs out less than `window_days` days after
/// `now`; and it has a stored IPA and an account to refresh it with.
pub proof fn lemma_refresh_due_within_window(a: AppRow, now: int, window_days: int)
    requires
        needs_refresh(a, refresh_threshold(now, window_days)),
    ensures
        a.ipa_path is Some && a.account_id is Some && a.installed_at is Some && a.refresh_enabled,
        (match a.last_refreshed {
            Some(r) => r as int,
            None => a.installed_at->0 as int,
        }) + crate::expiry::CERT_LIFETIME_SECS < now + window_days * 86400,
{
}

/// A lookup by key finds one row at most: in a table whose keys are distinct,
/// the only row with the key of row `k` is row `k`.
pub proof fn lemma_lookup_unique<T, K>(s: Seq<T>, key: spec_fn(T) -> K, k: int)
    requires
        keys_distinct(s, key),
        0 <= k < s.len(),
    ensures
        forall|i: int| 0 <= i < s.len() && key(#[trigger] s[i]) == key(s[k]) ==> i == k,
{
}

/// A row just added to a table whose keys stay distinct is what a lookup by
/// its key then finds.
pub proof fn lemma_read_after_insert<T, K>(before: Seq<T>, after: Seq<T>, key: spec_fn(T) -> K)
    requires
        after.len() == before.len() + 1,
        after.drop_last() == before,
        keys_distinct(after, key),
    ensures
        has_key(after, key, key(after.last())),
        forall|i: int| 0 <= i < after.len() && key(#[trigger] after[i]) == key(after.last()) ==> after[i] == after.last(),
{
    let n = after.len() - 1;
    assert(key(after[n]) == key(after.last()));
    lemma_lookup_unique(after, key, n);
}

/// After an app is marked installed, exactly one app holds its place on the
/// device under the bundle identifier the device reported: the app whose
/// identifier is returned, counted as installed and refreshed at `now`.
pub proof fn lemma_installed_app_owns_its_slot(
    before: Registry,
    after: Registry,
    app_id: Seq<char>,
    real_bundle_id: Seq<char>,
    now: i64,
    r: Seq<char>,
)
    requires
        before.wf(),
        after.wf(),
        installed_mark(before, after, app_id, real_bundle_id, now, r),
        has_key(before.app_rows(), app_id_key(), app_id),
    ensures
        ({
            let dev = before.app_rows()[app_index(before.app_rows(), app_id)].device_id@;
            exists|k: int|
                0 <= k < after.app_rows().len() && (#[trigger] after.app_rows()[k]).id@ == r
                    && app_slot_key()(after.app_rows()[k]) == (dev, real_bundle_id)
                    && after.app_rows()[k].installed_at is Some && after.app_rows()[k].last_refreshed == Some(now)
                    && forall|m: int| 0 <= m < after.app_rows().len() && app_slot_key()(#[trigger] after.app_rows()[m]) == (dev, real_bundle_id) ==> m == k
        }),
{
    let oa = before.app_rows();
    let na = after.app_rows();
    let i = app_index(oa, app_id);
    let row = oa[i];
    let dev = row.device_id@;
    let k: int = if row.bundle_id@ == real_bundle_id {
        i
    } else if slot_taken_elsewhere(oa, i, dev, real_bundle_id) {
        let j = slot_index_elsewhere(oa, i, dev, real_bundle_id);
        let u = oa.update(j, merged_app(row, oa[j], now));
        assert(na == u.remove(i));
        if j < i {
            assert(na[j] == u[j]);
            j
        } else {
            assert(na[j - 1] == u[j]);
            j - 1
        }
    } else {
        i
    };
    assert(0 <= k < na.len() && na[k].id@ == r && app_slot_key()(na[k]) == (dev, real_bundle_id)
        && na[k].installed_at is Some && na[k].last_refreshed == Some(now));
    lemma_lookup_unique(na, app_slot_key(), k);
}

/// The job queue lists running jobs first, then queued ones, then every
/// other job (done or failed): a running job is never listed after a job that
/// is not running, and a queued job never after one that is neither running
/// nor queued.
pub proof fn lemma_queue_groups_by_status(jobs: Seq<JobRow>)
    ensures
        forall|a: int, b: int|
            #![trigger queue_order(jobs)[a], queue_order(jobs)[b]]
            0 <= a < b < queue_order(jobs).len() ==> (queue_order(jobs)[b].status@ == "running"@
                ==> queue_order(jobs)[a].status@ == "running"@) && (queue_order(jobs)[b].status@ == "queued"@
                ==> (queue_order(jobs)[a].status@ == "running"@ || queue_order(jobs)[a].status@ == "queued"@)),
{
    lemma_queue_lists_every_job(jobs);
}

/// Within each status group the queue lists the most recently created job
/// first: the group is the jobs of that status rank, in reverse order of
/// creation.
pub proof fn lemma_queue_group_newest_first(jobs: Seq<JobRow>, r: int)
    ensures
        newest_with_rank(jobs, r) == jobs.filter(|j: JobRow| status_rank(j.status@) == r).reverse(),
    decreases jobs.len(),
{
    let p = |j: JobRow| status_rank(j.status@) == r;
    if jobs.len() == 0 {
        assert(jobs.filter(p) =~= Seq::<JobRow>::empty()) by { reveal(Seq::filter); }
        assert(jobs.filter(p).reverse() =~= Seq::<JobRow>::empty());
    } else {
        let init = jobs.drop_last();
        let x = jobs.last();
        lemma_queue_group_newest_first(init, r);
        assert(init.push(x) =~= jobs);
        init.lemma_filter_push(x, p);
        if p(x) {
            assert(init.filter(p).push(x).reverse() =~= seq![x] + init.filter(p).reverse());
        }
    }
}

/// Removing an account unlinks exactly the apps that named it: an app linked
/// to any other account, or to none, is left as it was, and an app linked to
/// the removed account keeps everything but its account.
pub proof fn lemma_unlink_touches_only_its_apps(before: Seq<AppRow>, after: Seq<AppRow>, id: Seq<char>)
    requires
        after.len() == before.len(),
        forall|k: int| 0 <= k < before.len() ==> #[trigger] after[k] == app_unlinked(before[k], id),
    ensures
        forall|k: int| 0 <= k < before.len() && opt_view((#[trigger] before[k]).account_id) != Some(id) ==> after[k] == before[k],
        forall|k: int| 0 <= k < before.len() && opt_view((#[trigger] before[k]).account_id) == Some(id)
            ==> after[k] == (AppRow { account_id: None, ..before[k] }),
{
    assert forall|k: int| 0 <= k < before.len() && opt_view((#[trigger] before[k]).account_id) != Some(id) implies after[k] == before[k] by {
        assert(after[k] == app_unlinked(before[k], id));
    }
    assert forall|k: int| 0 <= k < before.len() && opt_view((#[trigger] before[k]).account_id) == Some(id)
        implies after[k] == (AppRow { account_id: None, ..before[k] }) by {
        assert(after[k] == app_unlinked(before[k], id));
    }
}

proof fn lemma_rank_partition(jobs: Seq<JobRow>)
    ensures
        newest_with_rank(jobs, 0).len() + newest_with_rank(jobs, 1).len() + newest_with_rank(jobs, 2).len() == jobs.len(),
        forall|r: int, k: int| 0 <= k < newest_with_rank(jobs, r).len() ==> jobs.contains(#[trigger] newest_with_rank(jobs, r)[k])
            && status_rank(newest_with_rank(jobs, r)[k].status@) == r,
        forall|i: int| 0 <= i < jobs.len() ==> newest_with_rank(jobs, status_rank((#[trigger] jobs[i]).status@)).contains(jobs[i]),
    decreases jobs.len(),
{
    if jobs.len() > 0 {
        let init = jobs.drop_last();
        let x = jobs.last();
        lemma_rank_partition(init);
        assert forall|r: int, k: int| 0 <= k < newest_with_rank(jobs, r).len() implies jobs.contains(#[trigger] newest_with_rank(jobs, r)[k])
            && status_rank(newest_with_rank(jobs, r)[k].status@) == r by {
            let s = newest_with_rank(jobs, r);
            let s0 = newest_with_rank(init, r);
            if status_rank(x.status@) == r {
                if k == 0 {
                    assert(s[0] == x);
                    assert(jobs[jobs.len() - 1] == x);
                } else {
                    assert(s[k] == s0[k - 1]);
                    let w = choose|w: int| 0 <= w < init.len() && init[w] == s0[k - 1];
                    assert(jobs[w] == init[w]);
                }
            } else {
                assert(s[k] == s0[k]);
                let w = choose|w: int| 0 <= w < init.len() && init[w] == s0[k];
                assert(jobs[w] == init[w]);
            }
        }
        assert forall|i: int| 0 <= i < jobs.len() implies newest_with_rank(jobs, status_rank((#[trigger] jobs[i]).status@)).contains(jobs[i]) by {
            let r = status_rank(jobs[i].status@);
            let s = newest_with_rank(jobs, r);
            if i == jobs.len() - 1 {
                assert(s[0] == x);
            } else {
                assert(init[i] == jobs[i]);
                let s0 = newest_with_rank(init, r);
                assert(s0.contains(init[i]));
                let k = choose|k: int| 0 <= k < s0.len() && s0[k] == init[i];
                if status_rank(x.status@) == r {
                    assert(s[k + 1] == s0[k]);
                } else {
                    assert(s[k] == s0[k]);
                }
            }
        }
    }
}

/// The queue has as many entries as there are jobs; every job is listed and
/// every entry is a job; running jobs come before queued ones, which come
/// before finished ones.
pub proof fn lemma_queue_lists_every_job(jobs: Seq<JobRow>)
    ensures
        queue_order(jobs).len() == jobs.len(),
        forall|i: int| 0 <= i < jobs.len() ==> queue_order(jobs).contains(#[trigger] jobs[i]),
        forall|k: int| 0 <= k < queue_order(jobs).len() ==> jobs.contains(#[trigger] queue_order(jobs)[k]),
        forall|a: int, b: int| 0 <= a < b < queue_order(jobs).len() ==> status_rank((#[trigger] queue_order(jobs)[a]).status@)
            <= status_rank((#[trigger] queue_order(jobs)[b]).status@),
{
    lemma_rank_partition(jobs);
    let s0 = newest_with_rank(jobs, 0);
    let s1 = newest_with_rank(jobs, 1);
    let s2 = newest_with_rank(jobs, 2);
    let q = queue_order(jobs);
    assert(q == s0 + s1 + s2);
    assert forall|k: int| 0 <= k < q.len() implies jobs.contains(#[trigger] q[k]) && (
        (k < s0.len() ==> status_rank(q[k].status@) == 0)
        && (s0.len() <= k < s0.len() + s1.len() ==> status_rank(q[k].status@) == 1)
        && (s0.len() + s1.len() <= k ==> status_rank(q[k].status@) == 2)) by {
        if k < s0.len() {
            assert(q[k] == s0[k]);
        } else if k < s0.len() + s1.len() {
            assert(q[k] == s1[k - s0.len()]);
        } else {
            assert(q[k] == s2[k - s0.len() - s1.len()]);
        }
    }
    assert forall|i: int| 0 <= i < jobs.len() implies q.contains(#[trigger] jobs[i]) by {
        let r = status_rank(jobs[i].status@);
        let s = newest_with_rank(jobs, r);
        assert(s.contains(jobs[i]));
        let k = choose|k: int| 0 <= k < s.len() && s[k] == jobs[i];
        if r == 0 {
            assert(q[k] == s0[k]);
        } else if r == 1 {
            assert(q[s0.len() + k] == s1[k]);
        } else {
            assert(q[s0.len() + s1.len() + k] == s2[k]);
        }
    }
}


impl Registry {
    /// Adds a device row as read back from storage. Refused when its
    /// identifier or UDID is taken.
    pub fn restore_device(&mut self, d: DeviceRow) -> (r: Result<(), DbError>)
        requires
            old(self).wf(),
        ensures
            final(self).wf(),
            final(self).account_entries() == old(self).account_entries(),
            final(self).app_rows() == old(self).app_rows(),
            final(self).job_rows() == old(self).job_rows(),
            if has_key(old(self).device_rows(), device_id_key(), d.id@) || has_key(old(self).device_rows(), device_udid_key(), d.udid@) {
                r == Err::<(), DbError>(DbError::Conflict) && final(self).device_rows() == old(self).device_rows()
            } else {
                r is Ok && final(self).device_rows() == old(self).device_rows().push(d)
            },
    {
        if self.find_device(d.id.as_str()).is_some() || self.find_udid(d.udid.as_str()) {
            return Err(DbError::Conflict);
        }
        let ghost od = self.device_rows();
        proof {
            lemma_push_keeps_distinct(od, d, device_id_key());
            lemma_push_keeps_distinct(od, d, device_udid_key());
        }
        self.devices.push(d);
        proof {
            assert forall|i: int| 0 <= i < self.app_rows().len() implies has_key(self.device_rows(), device_id_key(), (#[trigger] self.app_rows()[i]).device_id@) by {
                let k = choose|k: int| 0 <= k < od.len() && device_id_key()(#[trigger] od[k]) == self.app_rows()[i].device_id@;
                assert(self.device_rows()[k] == od[k]);
            }
        }
        Ok(())
    }

    /// Adds an account as read back from storage. Refused when its identifier
    /// or Apple ID is taken.
    pub fn restore_account(&mut self, e: AccountEntry) -> (r: Result<(), DbError>)
        requires
            old(self).wf(),
        ensures
            final(self).wf(),
            final(self).device_rows() == old(self).device_rows(),
            final(self).app_rows() == old(self).app_rows(),
            final(self).job_rows() == old(self).job_rows(),
            if has_key(old(self).account_entries(), account_id_key(), e.row.id@) || has_key(old(self).account_entries(), account_apple_key(), e.row.apple_id@) {
                r == Err::<(), DbError>(DbError::Conflict) && final(self).account_entries() == old(self).account_entries()
            } else {
                r is Ok && final(self).account_entries() == old(self).account_entries().push(e)
            },
    {
        if self.find_account(e.row.id.as_str()).is_some() || self.find_apple_id(e.row.apple_id.as_str()).is_some() {
            return Err(DbError::Conflict);
        }
        let ghost oa = self.account_entries();
        proof {
            lemma_push_keeps_distinct(oa, e, account_id_key());
            lemma_push_keeps_distinct(oa, e, account_apple_key());
        }
        self.accounts.push(e);
        proof {
            assert forall|k: int| 0 <= k < self.app_rows().len() && (#[trigger] self.app_rows()[k]).account_id is Some implies has_key(
                self.account_entries(), account_id_key(), self.app_rows()[k].account_id->0@) by {
                let m = choose|m: int| 0 <= m < oa.len() && account_id_key()(#[trigger] oa[m]) == self.app_rows()[k].account_id->0@;
                assert(self.account_entries()[m] == oa[m]);
            }
        }
        Ok(())
    }

    /// Adds an app row as read back from storage. Refused when its identifier
    /// or its place on the device is taken, or its device or account does not
    /// exist.
    pub fn restore_app(&mut self, a: AppRow) -> (r: Result<(), DbError>)
        requires
            old(self).wf(),
        ensures
            final(self).wf(),
            final(self).device_rows() == old(self).device_rows(),
            final(self).account_entries() == old(self).account_entries(),
            final(self).job_rows() == old(self).job_rows(),
            if has_key(old(self).app_rows(), app_id_key(), a.id@) || has_key(old(self).app_rows(), app_slot_key(), (a.device_id@, a.bundle_id@)) {
                r == Err::<(), DbError>(DbError::Conflict) && final(self).app_rows() == old(self).app_rows()
            } else if !has_key(old(self).device_rows(), device_id_key(), a.device_id@) || (a.account_id is Some
                && !has_key(old(self).account_entries(), account_id_key(), a.account_id->0@)) {
                r == Err::<(), DbError>(DbError::MissingReference) && final(self).app_rows() == old(self).app_rows()
            } else {
                r is Ok && final(self).app_rows() == old(self).app_rows().push(a)
            },
    {
        if self.find_app(a.id.as_str()).is_some() || self.find_slot(a.device_id.as_str(), a.bundle_id.as_str()).is_some() {
            return Err(DbError::Conflict);
        }
        if self.find_device(a.device_id.as_str()).is_none() {
            return Err(DbError::MissingReference);
        }
        let known_account = match &a.account_id {
            Some(acc) => self.find_account(acc.as_str()).is_some(),
            None => true,
        };
        if !known_account {
            return Err(DbError::MissingReference);
        }
        let ghost oa = self.app_rows();
        proof {
            lemma_push_keeps_distinct(oa, a, app_id_key());
            lemma_push_keeps_distinct(oa, a, app_slot_key());
        }
        self.apps.push(a);
        proof {
            let n = self.app_rows();
            assert forall|m: int| 0 <= m < n.len() implies has_key(self.device_rows(), device_id_key(), (#[trigger] n[m]).device_id@) by {
                if m < oa.len() {
                    assert(n[m] == oa[m]);
                }
            }
            assert forall|m: int| 0 <= m < n.len() && (#[trigger] n[m]).account_id is Some implies has_key(
                self.account_entries(), account_id_key(), n[m].account_id->0@) by {
                if m < oa.len() {
                    assert(n[m] == oa[m]);
                }
            }
            assert forall|m: int| 0 <= m < self.job_rows().len() implies has_key(n, app_id_key(), (#[trigger] self.job_rows()[m]).app_id@) by {
                let w = choose|w: int| 0 <= w < oa.len() && app_id_key()(#[trigger] oa[w]) == self.job_rows()[m].app_id@;
                assert(n[w] == oa[w]);
            }
        }
        Ok(())
    }

    /// Adds a job row as read back from storage. Refused when its identifier
    /// is taken or its app does not exist.
    pub fn restore_job(&mut self, j: JobRow) -> (r: Result<(), DbError>)
        requires
            old(self).wf(),
        ensures
            final(self).wf(),
            final(self).device_rows() == old(self).device_rows(),
            final(self).account_entries() == old(self).account_entries(),
            final(self).app_rows() == old(self).app_rows(),
            if has_key(old(self).job_rows(), job_id_key(), j.id@) {
                r == Err::<(), DbError>(DbError::Conflict) && final(self).job_rows() == old(self).job_rows()
            } else if !has_key(old(self).app_rows(), app_id_key(), j.app_id@) {
                r == Err::<(), DbError>(DbError::MissingReference) && final(self).job_rows() == old(self).job_rows()
            } else {
                r is Ok && final(self).job_rows() == old(self).job_rows().push(j)
            },
    {
        if self.find_job(j.id.as_str()).is_some() {
            return Err(DbError::Conflict);
        }
        if self.find_app(j.app_id.as_str()).is_none() {
            return Err(DbError::MissingReference);
        }
        let ghost oj = self.job_rows();
        proof {
            lemma_push_keeps_distinct(oj, j, job_id_key());
        }
        self.jobs.push(j);
        proof {
            assert forall|m: int| 0 <= m < self.job_rows().len() implies has_key(self.app_rows(), app_id_key(), (#[trigger] self.job_rows()[m]).app_id@) by {
                if m < oj.len() {
                    assert(self.job_rows()[m] == oj[m]);
                }
            }
        }
        Ok(())
    }
}

} // verus!
