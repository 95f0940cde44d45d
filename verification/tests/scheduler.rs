use jas::login::{after_login_check, needs_second_factor, LoginWait};
use jas::records::AppRow;
use jas::scheduler::{
    apps_to_prune, group_by_device, interval_secs, ipa_for_install, job_outcome, refresh_all_candidates,
    requested_refresh, scheduled_refresh, tries_profile_refresh_first, verify_against_device, JobError,
    JobKind, ReconcileError, RefreshError,
};

fn app(id: &str, device: &str, bundle: &str) -> AppRow {
    AppRow {
        id: id.to_string(),
        device_id: device.to_string(),
        bundle_id: bundle.to_string(),
        display_name: id.to_string(),
        version: None,
        ipa_path: Some(format!("/i/{id}.ipa")),
        account_id: Some("acc".to_string()),
        installed_at: Some(1),
        last_refreshed: None,
        refresh_enabled: true,
    }
}

#[test]
fn groups_apps_by_device() {
    let apps = vec![app("a", "d1", "x"), app("b", "d2", "y"), app("c", "d1", "z")];
    let groups = group_by_device(&apps);
    assert_eq!(groups.len(), 2);
    assert_eq!(groups[0].device_id, "d1");
    let ids: Vec<String> = groups[0].apps.iter().map(|a| a.id.clone()).collect();
    assert_eq!(ids, vec!["a".to_string(), "c".to_string()]);
    assert_eq!(groups[1].apps.len(), 1);
}

#[test]
fn prunes_apps_missing_from_device() {
    let apps = vec![app("a", "d1", "x"), app("b", "d1", "y")];
    let (keep, drop) = verify_against_device(&apps, &vec!["x".to_string()]);
    assert_eq!(keep.len(), 1);
    assert_eq!(keep[0].id, "a");
    assert_eq!(drop.len(), 1);
    assert_eq!(drop[0].id, "b");
    let (keep, drop) = verify_against_device(&apps, &vec![]);
    assert_eq!(keep.len(), 2);
    assert!(drop.is_empty());
    let mut never = app("c", "d1", "q");
    never.installed_at = None;
    let rows = vec![app("a", "d1", "x"), app("b", "d1", "y"), never];
    let pruned = apps_to_prune(&rows, &vec!["x".to_string()]).unwrap();
    assert_eq!(pruned.len(), 1);
    assert_eq!(pruned[0].id, "b");
    assert_eq!(apps_to_prune(&rows, &vec![]).unwrap_err(), ReconcileError::NoAppsReported);
}

#[test]
fn refresh_requests() {
    let a = app("a", "d1", "x");
    let req = scheduled_refresh(&a, "j".to_string()).unwrap();
    assert_eq!(req.account_id, "acc");
    assert!(matches!(req.kind, JobKind::Refresh));
    let mut no_acc = app("b", "d1", "y");
    no_acc.account_id = None;
    assert!(scheduled_refresh(&no_acc, "j".to_string()).is_none());
    assert_eq!(requested_refresh(&no_acc, "j".to_string()).unwrap_err(), RefreshError::NoAccountLinked);
    let mut no_ipa = app("c", "d1", "z");
    no_ipa.ipa_path = None;
    assert_eq!(requested_refresh(&no_ipa, "j".to_string()).unwrap_err(), RefreshError::NoStoredIpa);
    let mut off = app("d", "d1", "w");
    off.refresh_enabled = false;
    let mut pending = app("e", "d1", "v");
    pending.installed_at = None;
    let picked = refresh_all_candidates(&vec![a, no_acc, no_ipa, off, pending]);
    let ids: Vec<String> = picked.into_iter().map(|p| p.id).collect();
    assert_eq!(ids, vec!["a".to_string(), "e".to_string()]);
}

#[test]
fn job_decisions() {
    assert!(tries_profile_refresh_first(&JobKind::Refresh));
    assert!(!tries_profile_refresh_first(&JobKind::Install { ipa_path: "p".into() }));
    assert_eq!(ipa_for_install(&JobKind::Install { ipa_path: "p".into() }, None), Ok("p".to_string()));
    assert_eq!(ipa_for_install(&JobKind::Refresh, Some("s".into())), Ok("s".to_string()));
    assert_eq!(ipa_for_install(&JobKind::Refresh, None), Err(JobError::NoStoredIpa));
    let done = job_outcome(Ok("com.a.T".to_string()));
    assert_eq!(done.status, "done");
    assert_eq!(done.installed_bundle_id.as_deref(), Some("com.a.T"));
    let failed = job_outcome(Err("boom".to_string()));
    assert_eq!(failed.status, "failed");
    assert_eq!(failed.error.as_deref(), Some("boom"));
    assert_eq!(interval_secs(2), 7200);
    assert_eq!(interval_secs(u64::MAX), u64::MAX);
}

#[test]
fn login_waits_are_bounded() {
    assert_eq!(after_login_check(1, true), LoginWait::Finish);
    assert_eq!(after_login_check(1, false), LoginWait::KeepWaiting);
    assert_eq!(after_login_check(30, false), LoginWait::TimedOut);
    assert!(needs_second_factor(false));
    assert!(!needs_second_factor(true));
}
