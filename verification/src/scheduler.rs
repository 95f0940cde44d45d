//! The refresh scheduler's and the job workers' decisions: which apps to
//! refresh, which to drop because the device no longer has them, and what a
//! finished job records.

use vstd::prelude::*;
use crate::records::AppRow;
use crate::text::str_eq;

verus! {

/// What a background job does.
#[derive(Debug)]
pub enum JobKind {
    /// Sign and install the IPA at `ipa_path`.
    Install { ipa_path: String },
    /// Renew an installed app's provisioning profile, or reinstall it.
    Refresh,
}

/// A job handed to the worker pool.
#[derive(Debug)]
pub struct JobRequest {
    pub job_id: String,
    pub app_id: String,
    pub device_id: String,
    pub account_id: String,
    pub kind: JobKind,
}

/// Why a refresh could not be queued for an app.
#[derive(Debug, PartialEq, Eq, Structural, Clone, Copy)]
pub enum RefreshError {
    /// The app's IPA was not kept on the server.
    NoStoredIpa,
    /// No Apple account is linked to the app.
    NoAccountLinked,
}

/// Why apps on a device could not be reconciled with it.
#[derive(Debug, PartialEq, Eq, Structural, Clone, Copy)]
pub enum ReconcileError {
    /// The device listed no apps at all, which is taken as a failed listing.
    NoAppsReported,
}

/// Some bundle identifier in `installed` is `bundle_id`.
pub open spec fn reported(installed: Seq<String>, bundle_id: Seq<char>) -> bool {
    exists|i: int| 0 <= i < installed.len() && (#[trigger] installed[i])@ == bundle_id
}

/// Whether the device reported `bundle_id` among its installed apps.
pub fn is_reported(installed: &Vec<String>, bundle_id: &str) -> (r: bool)
    ensures
        r == reported(installed@, bundle_id@),
{
    let mut i: usize = 0;
    while i < installed.len()
        invariant
            i <= installed@.len(),
            forall|k: int| 0 <= k < i ==> installed@[k]@ != bundle_id@,
        decreases installed@.len() - i,
    {
        if str_eq(installed[i].as_str(), bundle_id) {
            return true;
        }
        i = i + 1;
    }
    false
}

/// The apps of one device.
#[derive(Debug)]
pub struct DeviceApps {
    pub device_id: String,
    pub apps: Vec<AppRow>,
}

/// `groups` puts each app of `apps` with the others on its device: one group
/// per device, holding that device's apps in their order.
pub open spec fn grouped_by_device(groups: Seq<DeviceApps>, apps: Seq<AppRow>) -> bool {
    &&& forall|g: int, h: int| 0 <= g < groups.len() && 0 <= h < groups.len() && g != h ==> (#[trigger] groups[g]).device_id@ != (#[trigger] groups[h]).device_id@
    &&& forall|g: int| 0 <= g < groups.len() ==> (#[trigger] groups[g]).apps@ == apps.filter(|a: AppRow| a.device_id@ == groups[g].device_id@)
    &&& forall|k: int| 0 <= k < apps.len() ==> exists|g: int| 0 <= g < groups.len() && (#[trigger] groups[g]).device_id@ == (#[trigger] apps[k]).device_id@
    &&& forall|g: int| 0 <= g < groups.len() ==> exists|k: int| 0 <= k < apps.len() && (#[trigger] groups[g]).device_id@ == (#[trigger] apps[k]).device_id@
}

/// Groups apps by device, so each device is contacted once.
pub fn group_by_device(apps: &Vec<AppRow>) -> (r: Vec<DeviceApps>)
    ensures
        grouped_by_device(r@, apps@),
{
    let mut groups: Vec<DeviceApps> = Vec::new();
    let mut i: usize = 0;
    while i < apps.len()
        invariant
            i <= apps@.len(),
            grouped_by_device(groups@, apps@.take(i as int)),
        decreases apps@.len() - i,
    {
        let a = &apps[i];
        let ghost pre = apps@.take(i as int);
        let ghost post = apps@.take(i + 1);
        assert(post =~= pre.push(*a));
        let mut g: usize = 0;
        while g < groups.len() && !str_eq(groups[g].device_id.as_str(), a.device_id.as_str())
            invariant
                g <= groups@.len(),
                forall|h: int| 0 <= h < g ==> (#[trigger] groups@[h]).device_id@ != a.device_id@,
            decreases groups@.len() - g,
        {
            g = g + 1;
        }
        let ghost old_groups = groups@;
        if g < groups.len() {
            groups[g].apps.push(a.clone());
        } else {
            let mut v: Vec<AppRow> = Vec::new();
            v.push(a.clone());
            groups.push(DeviceApps { device_id: a.device_id.clone(), apps: v });
        }
        proof {
            assert forall|h: int| 0 <= h < groups@.len() implies (#[trigger] groups@[h]).apps@ == post.filter(|x: AppRow| x.device_id@ == groups@[h].device_id@) by {
                let p = |x: AppRow| x.device_id@ == groups@[h].device_id@;
                pre.lemma_filter_push(*a, p);
                if h < old_groups.len() {
                    assert(groups@[h].device_id == old_groups[h].device_id);
                    if h == g {
                        assert(groups@[h].apps@ == old_groups[h].apps@.push(*a));
                    } else {
                        assert(groups@[h] == old_groups[h]);
                        assert(old_groups[h].device_id@ != a.device_id@);
                    }
                } else {
                    assert(pre.filter(p) =~= Seq::<AppRow>::empty()) by {
                        assert forall|k: int| 0 <= k < pre.len() implies !p(pre[k]) by {
                            let w = choose|w: int| 0 <= w < old_groups.len() && (#[trigger] old_groups[w]).device_id@ == (#[trigger] pre[k]).device_id@;
                        }
                        pre.lemma_all_neg_filter_empty(p);
                    }
                    assert(groups@[h].apps@ =~= seq![*a]);
                }
            }
            assert forall|k: int| 0 <= k < post.len() implies exists|w: int| 0 <= w < groups@.len() && (#[trigger] groups@[w]).device_id@ == (#[trigger] post[k]).device_id@ by {
                if k < pre.len() {
                    assert(post[k] == pre[k]);
                    let w = choose|w: int| 0 <= w < old_groups.len() && (#[trigger] old_groups[w]).device_id@ == (#[trigger] pre[k]).device_id@;
                    assert(groups@[w].device_id == old_groups[w].device_id);
                } else {
                    assert(groups@[g as int].device_id@ == a.device_id@);
                }
            }
            assert forall|w: int| 0 <= w < groups@.len() implies exists|k: int| 0 <= k < post.len() && (#[trigger] groups@[w]).device_id@ == (#[trigger] post[k]).device_id@ by {
                if w < old_groups.len() {
                    assert(groups@[w].device_id == old_groups[w].device_id);
                    let k = choose|k: int| 0 <= k < pre.len() && (#[trigger] old_groups[w]).device_id@ == (#[trigger] pre[k]).device_id@;
                    assert(post[k] == pre[k]);
                } else {
                    assert(post[pre.len() as int] == *a);
                }
            }
            assert forall|x: int, y: int| 0 <= x < groups@.len() && 0 <= y < groups@.len() && x != y implies (#[trigger] groups@[x]).device_id@ != (#[trigger] groups@[y]).device_id@ by {
                if x < old_groups.len() && y < old_groups.len() {
                    assert(groups@[x].device_id == old_groups[x].device_id);
                    assert(groups@[y].device_id == old_groups[y].device_id);
                } else if x < old_groups.len() {
                    assert(groups@[x].device_id == old_groups[x].device_id);
                } else {
                    assert(groups@[y].device_id == old_groups[y].device_id);
                }
            }
        }
        i = i + 1;
    }
    assert(apps@.take(i as int) =~= apps@);
    groups
}

/// The apps the device still has, and those it no longer has. When the device
/// reports no apps at all the listing is not trusted, and every app is kept.
pub open spec fn split_by_device_report(apps: Seq<AppRow>, installed: Seq<String>) -> (Seq<AppRow>, Seq<AppRow>) {
    if installed.len() == 0 {
        (apps, Seq::empty())
    } else {
        (
            apps.filter(|a: AppRow| reported(installed, a.bundle_id@)),
            apps.filter(|a: AppRow| !reported(installed, a.bundle_id@)),
        )
    }
}

/// Splits a device's apps into those to refresh and those to remove from the
/// registry because the device no longer lists them.
pub fn verify_against_device(apps: &Vec<AppRow>, installed: &Vec<String>) -> (r: (Vec<AppRow>, Vec<AppRow>))
    ensures
        (r.0@, r.1@) == split_by_device_report(apps@, installed@),
{
    let ghost pk = |a: AppRow| reported(installed@, a.bundle_id@);
    let ghost pp = |a: AppRow| !reported(installed@, a.bundle_id@);
    let mut keep: Vec<AppRow> = Vec::new();
    let mut prune: Vec<AppRow> = Vec::new();
    if installed.len() == 0 {
        let mut i: usize = 0;
        while i < apps.len()
            invariant
                i <= apps@.len(),
                keep@ == apps@.take(i as int),
            decreases apps@.len() - i,
        {
            keep.push(apps[i].clone());
            i = i + 1;
            assert(keep@ =~= apps@.take(i as int));
        }
        assert(apps@.take(i as int) =~= apps@);
        assert(prune@ =~= Seq::<AppRow>::empty());
        return (keep, prune);
    }
    let mut i: usize = 0;
    assert(apps@.take(0).filter(pk) =~= Seq::<AppRow>::empty()) by {
        reveal(Seq::filter);
    }
    assert(apps@.take(0).filter(pp) =~= Seq::<AppRow>::empty()) by {
        reveal(Seq::filter);
    }
    while i < apps.len()
        invariant
            i <= apps@.len(),
            pk == (|a: AppRow| reported(installed@, a.bundle_id@)),
            pp == (|a: AppRow| !reported(installed@, a.bundle_id@)),
            keep@ == apps@.take(i as int).filter(pk),
            prune@ == apps@.take(i as int).filter(pp),
        decreases apps@.len() - i,
    {
        let a = &apps[i];
        proof {
            apps@.take(i as int).lemma_filter_push(*a, pk);
            apps@.take(i as int).lemma_filter_push(*a, pp);
            assert(apps@.take(i + 1) =~= apps@.take(i as int).push(*a));
        }
        if is_reported(installed, a.bundle_id.as_str()) {
            keep.push(a.clone());
        } else {
            prune.push(a.clone());
        }
        i = i + 1;
    }
    assert(apps@.take(i as int) =~= apps@);
    (keep, prune)
}

/// A refresh job for an app the scheduler found due, when it has an account.
pub fn scheduled_refresh(app: &AppRow, job_id: String) -> (r: Option<JobRequest>)
    ensures
        match app.account_id {
            None => r is None,
            Some(acc) => r matches Some(req) && req.job_id == job_id && req.app_id == app.id
                && req.device_id == app.device_id && req.account_id == acc && req.kind is Refresh,
        },
{
    match &app.account_id {
        None => None,
        Some(acc) => Some(JobRequest {
            job_id,
            app_id: app.id.clone(),
            device_id: app.device_id.clone(),
            account_id: acc.clone(),
            kind: JobKind::Refresh,
        }),
    }
}

/// A refresh job the user asked for: the app's IPA must be stored and an
/// account linked.
pub fn requested_refresh(app: &AppRow, job_id: String) -> (r: Result<JobRequest, RefreshError>)
    ensures
        if app.ipa_path is None {
            r == Err::<JobRequest, RefreshError>(RefreshError::NoStoredIpa)
        } else if app.account_id is None {
            r == Err::<JobRequest, RefreshError>(RefreshError::NoAccountLinked)
        } else {
            r matches Ok(req) && req.job_id == job_id && req.app_id == app.id && req.device_id == app.device_id
                && req.account_id == app.account_id->0 && req.kind is Refresh
        },
{
    if app.ipa_path.is_none() {
        return Err(RefreshError::NoStoredIpa);
    }
    match scheduled_refresh(app, job_id) {
        Some(req) => Ok(req),
        None => Err(RefreshError::NoAccountLinked),
    }
}

/// An app "Refresh all" refreshes: refreshing enabled, IPA stored, and an
/// account linked.
pub open spec fn refreshable(a: AppRow) -> bool {
    a.refresh_enabled && a.ipa_path is Some && a.account_id is Some
}

/// The apps of a device that "Refresh all" queues jobs for, in order.
pub fn refresh_all_candidates(apps: &Vec<AppRow>) -> (r: Vec<AppRow>)
    ensures
        r@ == apps@.filter(|a: AppRow| refreshable(a)),
{
    let ghost p = |a: AppRow| refreshable(a);
    let mut out: Vec<AppRow> = Vec::new();
    let mut i: usize = 0;
    assert(apps@.take(0).filter(p) =~= Seq::<AppRow>::empty()) by {
        reveal(Seq::filter);
    }
    while i < apps.len()
        invariant
            i <= apps@.len(),
            p == (|a: AppRow| refreshable(a)),
            out@ == apps@.take(i as int).filter(p),
        decreases apps@.len() - i,
    {
        let a = &apps[i];
        proof {
            apps@.take(i as int).lemma_filter_push(*a, p);
            assert(apps@.take(i + 1) =~= apps@.take(i as int).push(*a));
        }
        if a.refresh_enabled && a.ipa_path.is_some() && a.account_id.is_some() {
            out.push(a.clone());
        }
        i = i + 1;
    }
    assert(apps@.take(i as int) =~= apps@);
    out
}

/// An app "Sync from device" removes: installed once, but no longer listed by
/// the device.
pub open spec fn stale_on_device(a: AppRow, installed: Seq<String>) -> bool {
    a.installed_at is Some && !reported(installed, a.bundle_id@)
}

/// The apps "Sync from device" removes; refused when the device lists no
/// apps at all.
pub fn apps_to_prune(apps: &Vec<AppRow>, installed: &Vec<String>) -> (r: Result<Vec<AppRow>, ReconcileError>)
    ensures
        if installed@.len() == 0 {
            r == Err::<Vec<AppRow>, ReconcileError>(ReconcileError::NoAppsReported)
        } else {
            r matches Ok(v) && v@ == apps@.filter(|a: AppRow| stale_on_device(a, installed@))
        },
{
    if installed.len() == 0 {
        return Err(ReconcileError::NoAppsReported);
    }
    let ghost p = |a: AppRow| stale_on_device(a, installed@);
    let mut out: Vec<AppRow> = Vec::new();
    let mut i: usize = 0;
    assert(apps@.take(0).filter(p) =~= Seq::<AppRow>::empty()) by {
        reveal(Seq::filter);
    }
    while i < apps.len()
        invariant
            i <= apps@.len(),
            p == (|a: AppRow| stale_on_device(a, installed@)),
            out@ == apps@.take(i as int).filter(p),
        decreases apps@.len() - i,
    {
        let a = &apps[i];
        proof {
            apps@.take(i as int).lemma_filter_push(*a, p);
            assert(apps@.take(i + 1) =~= apps@.take(i as int).push(*a));
        }
        if a.installed_at.is_some() && !is_reported(installed, a.bundle_id.as_str()) {
            out.push(a.clone());
        }
        i = i + 1;
    }
    assert(apps@.take(i as int) =~= apps@);
    Ok(out)
}

/// The pruning the scheduler does never drops an app the device still lists,
/// keeps every app the device lists, and drops nothing when the device lists
/// nothing.
pub proof fn lemma_device_report_split(apps: Seq<AppRow>, installed: Seq<String>)
    ensures
        ({
            let (keep, drop) = split_by_device_report(apps, installed);
            &&& installed.len() == 0 ==> keep == apps && drop.len() == 0
            &&& keep.len() + drop.len() == apps.len()
            &&& forall|k: int| 0 <= k < drop.len() ==> !reported(installed, (#[trigger] drop[k]).bundle_id@) && apps.contains(drop[k])
            &&& forall|k: int| 0 <= k < keep.len() ==> apps.contains(#[trigger] keep[k])
            &&& forall|k: int| 0 <= k < apps.len() && reported(installed, (#[trigger] apps[k]).bundle_id@) ==> keep.contains(apps[k])
        }),
{
    broadcast use vstd::seq_lib::group_filter_ensures;
    if installed.len() > 0 {
        let pk = |a: AppRow| reported(installed, a.bundle_id@);
        let pp = |a: AppRow| !reported(installed, a.bundle_id@);
        lemma_filter_split_len(apps, pk, pp);
        let drop = apps.filter(pp);
        let keep = apps.filter(pk);
        crate::seqs::lemma_filter_members(apps, pp);
        crate::seqs::lemma_filter_members(apps, pk);
        assert forall|k: int| 0 <= k < drop.len() implies !reported(installed, (#[trigger] drop[k]).bundle_id@) && apps.contains(drop[k]) by {
            apps.lemma_filter_pred(pp, k);
        }
        assert forall|k: int| 0 <= k < apps.len() && reported(installed, (#[trigger] apps[k]).bundle_id@) implies apps.filter(pk).contains(apps[k]) by {
            apps.lemma_filter_contains_rev(pk, apps[k]);
        }
    }
}

proof fn lemma_filter_split_len(s: Seq<AppRow>, p: spec_fn(AppRow) -> bool, q: spec_fn(AppRow) -> bool)
    requires
        forall|a: AppRow| #[trigger] q(a) == !p(a),
    ensures
        s.filter(p).len() + s.filter(q).len() == s.len(),
    decreases s.len(),
{
    if s.len() > 0 {
        lemma_filter_split_len(s.drop_last(), p, q);
        assert(s.drop_last().push(s.last()) =~= s);
        s.drop_last().lemma_filter_push(s.last(), p);
        s.drop_last().lemma_filter_push(s.last(), q);
    } else {
        assert(s.filter(p) =~= Seq::<AppRow>::empty()) by { reveal(Seq::filter); }
        assert(s.filter(q) =~= Seq::<AppRow>::empty()) by { reveal(Seq::filter); }
    }
}

/// Why a job could not run.
#[derive(Debug, PartialEq, Eq, Structural, Clone, Copy)]
pub enum JobError {
    /// A refresh that has to reinstall finds no stored IPA.
    NoStoredIpa,
}

/// A refresh first tries to renew only the provisioning profile.
pub fn tries_profile_refresh_first(kind: &JobKind) -> (r: bool)
    ensures
        r == kind is Refresh,
{
    match kind {
        JobKind::Refresh => true,
        JobKind::Install { .. } => false,
    }
}

/// The IPA a full install uses: the uploaded one for an install job, the
/// stored one for a refresh.
pub fn ipa_for_install(kind: &JobKind, stored_ipa: Option<String>) -> (r: Result<String, JobError>)
    ensures
        match kind {
            JobKind::Install { ipa_path } => r == Ok::<String, JobError>(*ipa_path),
            JobKind::Refresh => match stored_ipa {
                Some(p) => r == Ok::<String, JobError>(p),
                None => r == Err::<String, JobError>(JobError::NoStoredIpa),
            },
        },
{
    match kind {
        JobKind::Install { ipa_path } => Ok(ipa_path.clone()),
        JobKind::Refresh => match stored_ipa {
            Some(p) => Ok(p),
            None => Err(JobError::NoStoredIpa),
        },
    }
}

/// How a job ended: its final status, its error, and the bundle identifier to
/// record the app as installed under.
pub struct JobOutcome {
    pub status: &'static str,
    pub error: Option<String>,
    pub installed_bundle_id: Option<String>,
}

/// What a job records when it ends: `done` with the installed bundle
/// identifier, or `failed` with the error.
pub fn job_outcome(result: Result<String, String>) -> (r: JobOutcome)
    ensures
        match result {
            Ok(bundle) => r.status@ == "done"@ && r.error is None && r.installed_bundle_id == Some(bundle),
            Err(msg) => r.status@ == "failed"@ && r.error == Some(msg) && r.installed_bundle_id is None,
        },
{
    match result {
        Ok(bundle) => JobOutcome { status: "done", error: None, installed_bundle_id: Some(bundle) },
        Err(msg) => JobOutcome { status: "failed", error: Some(msg), installed_bundle_id: None },
    }
}

/// The scheduler's period in seconds for a period of `hours` hours (held at
/// `u64::MAX`).
pub fn interval_secs(hours: u64) -> (r: u64)
    ensures
        r == (if hours * 3600 > u64::MAX { u64::MAX as int } else { hours * 3600 }),
{
    if hours > u64::MAX / 3600 {
        u64::MAX
    } else {
        hours * 3600
    }
}

/// The apps `apps_to_prune` returns when the device lists `installed`.
pub open spec fn pruned_apps(apps: Seq<AppRow>, installed: Seq<String>) -> Seq<AppRow> {
    apps.filter(|a: AppRow| stale_on_device(a, installed))
}

/// "Sync from device" prunes exactly the installed apps the device no longer
/// lists, whatever their other settings: every app with an install time whose
/// bundle identifier is not among the listed ones is pruned, and every pruned
/// app is such an app of the device.
pub proof fn lemma_prune_is_exactly_the_missing(apps: Seq<AppRow>, installed: Seq<String>)
    ensures
        pruned_apps(apps, installed) == apps.filter(|a: AppRow| stale_on_device(a, installed)),
        forall|k: int|
            0 <= k < apps.len() && (#[trigger] apps[k]).installed_at is Some
                && (forall|i: int| 0 <= i < installed.len() ==> installed[i]@ != apps[k].bundle_id@)
                ==> pruned_apps(apps, installed).contains(apps[k]),
        forall|k: int|
            0 <= k < pruned_apps(apps, installed).len() ==> apps.contains(#[trigger] pruned_apps(apps, installed)[k])
                && pruned_apps(apps, installed)[k].installed_at is Some
                && forall|i: int| 0 <= i < installed.len() ==> installed[i]@ != pruned_apps(apps, installed)[k].bundle_id@,
{
    broadcast use vstd::seq_lib::group_filter_ensures;
    let pred = |a: AppRow| stale_on_device(a, installed);
    let f = pruned_apps(apps, installed);
    assert(f == apps.filter(pred));
    crate::seqs::lemma_filter_members(apps, pred);
    assert forall|k: int|
        0 <= k < apps.len() && (#[trigger] apps[k]).installed_at is Some
            && (forall|i: int| 0 <= i < installed.len() ==> installed[i]@ != apps[k].bundle_id@)
        implies f.contains(apps[k]) by {
        if reported(installed, apps[k].bundle_id@) {
            let i = choose|i: int| 0 <= i < installed.len() && (#[trigger] installed[i])@ == apps[k].bundle_id@;
            assert(installed[i]@ != apps[k].bundle_id@);
        }
        assert(pred(apps[k]));
        apps.lemma_filter_contains_rev(pred, apps[k]);
    }
    assert forall|k: int| 0 <= k < f.len() implies apps.contains(#[trigger] f[k]) && f[k].installed_at is Some
        && forall|i: int| 0 <= i < installed.len() ==> installed[i]@ != f[k].bundle_id@ by {
        apps.lemma_filter_pred(pred, k);
        assert(f.contains(f[k]));
        assert forall|i: int| 0 <= i < installed.len() implies installed[i]@ != f[k].bundle_id@ by {
            if installed[i]@ == f[k].bundle_id@ {
                assert(reported(installed, f[k].bundle_id@));
            }
        }
    }
}

} // verus!
