use jas::records::{AccountRow, AppRow, DeviceRow, JobRow};
use jas::registry::{AccountEntry, DbError, Registry};

fn setup() -> Registry {
    let mut r = Registry::new();
    r.insert_device("d1", "Phone", "udid-1", "10.0.0.2", 49152, &[1, 2, 3], "static").unwrap();
    r.insert_device("d2", "Alpha Pad", "udid-2", "10.0.0.3", 49152, &[4], "static").unwrap();
    r.insert_account("acc1", "me@example.com", &[9, 9], Some("TEAM"), Some("Me")).unwrap();
    r
}

#[test]
fn devices_are_unique_and_sorted() {
    let mut r = setup();
    assert_eq!(r.insert_device("d1", "X", "udid-9", "ip", 1, &[], "static"), Err(DbError::Conflict));
    assert_eq!(r.insert_device("d9", "X", "udid-1", "ip", 1, &[], "static"), Err(DbError::Conflict));
    let names: Vec<String> = r.list_devices().into_iter().map(|d| d.name).collect();
    assert_eq!(names, vec!["Alpha Pad".to_string(), "Phone".to_string()]);
    r.update_device_ip("d1", "192.168.1.5");
    r.update_device_mdns_ip_at("d1", "192.168.1.6", 77);
    r.update_device_pairing("d1", &[7]);
    let d = r.get_device("d1").unwrap();
    assert_eq!(d.ip, "192.168.1.5");
    assert_eq!(d.mdns_ip.as_deref(), Some("192.168.1.6"));
    assert_eq!(d.mdns_seen_at, Some(77));
    assert_eq!(d.pairing_blob, vec![7]);
    assert!(r.get_device("nope").is_none());
}

#[test]
fn upsert_keeps_one_row_per_bundle() {
    let mut r = setup();
    assert_eq!(
        r.upsert_app("x", "missing", "com.a", "A", None, None, None),
        Err(DbError::MissingReference)
    );
    assert_eq!(
        r.upsert_app("x", "d1", "com.a", "A", None, None, Some("nobody")),
        Err(DbError::MissingReference)
    );
    let id = r.upsert_app("app1", "d1", "com.a", "A", Some("1.0"), Some("/ipas/a.ipa"), Some("acc1")).unwrap();
    assert_eq!(id, "app1");
    let again = r.upsert_app("app2", "d1", "com.a", "A2", None, None, None).unwrap();
    assert_eq!(again, "app1");
    let a = r.get_app("app1").unwrap();
    assert_eq!(a.display_name, "A2");
    assert_eq!(a.version, None);
    assert_eq!(a.ipa_path.as_deref(), Some("/ipas/a.ipa"));
    assert_eq!(a.account_id.as_deref(), Some("acc1"));
    assert_eq!(a.installed_at, None);
    assert!(a.refresh_enabled);
    assert_eq!(r.apps().len(), 1);
    assert_eq!(
        r.upsert_app("app1", "d2", "com.b", "B", None, None, None),
        Err(DbError::Conflict)
    );
}

#[test]
fn mark_installed_merges_into_the_real_bundle() {
    let mut r = setup();
    r.upsert_app("old", "d1", "com.a.TEAM", "Old", Some("1"), None, None).unwrap();
    r.upsert_app("new", "d1", "com.a", "New", Some("2"), Some("/ipas/a.ipa"), Some("acc1")).unwrap();
    r.insert_job("j1", "new", "install").unwrap();
    let survivor = r.mark_app_installed_at("new", "com.a.TEAM", 500);
    assert_eq!(survivor, "old");
    assert!(r.get_app("new").is_none());
    let a = r.get_app("old").unwrap();
    assert_eq!(a.display_name, "New");
    assert_eq!(a.version.as_deref(), Some("2"));
    assert_eq!(a.ipa_path.as_deref(), Some("/ipas/a.ipa"));
    assert_eq!(a.installed_at, Some(500));
    assert_eq!(a.last_refreshed, Some(500));
    assert_eq!(r.get_job("j1").unwrap().app_id, "old");
}

#[test]
fn mark_installed_renames_or_stamps() {
    let mut r = setup();
    r.upsert_app("a", "d1", "com.a", "A", None, None, None).unwrap();
    assert_eq!(r.mark_app_installed_at("a", "com.a.TEAM", 100), "a");
    let a = r.get_app("a").unwrap();
    assert_eq!(a.bundle_id, "com.a.TEAM");
    assert_eq!(a.installed_at, Some(100));
    assert_eq!(r.mark_app_installed_at("a", "com.a.TEAM", 200), "a");
    let a = r.get_app("a").unwrap();
    assert_eq!(a.installed_at, Some(100));
    assert_eq!(a.last_refreshed, Some(200));
    assert_eq!(r.mark_app_installed_at("zzz", "x", 1), "zzz");
}

#[test]
fn deletes_cascade() {
    let mut r = setup();
    r.upsert_app("a", "d1", "com.a", "A", None, None, Some("acc1")).unwrap();
    r.upsert_app("b", "d2", "com.b", "B", None, None, Some("acc1")).unwrap();
    r.insert_job("ja", "a", "install").unwrap();
    r.insert_job("jb", "b", "install").unwrap();
    r.delete_device("d1");
    assert!(r.get_app("a").is_none());
    assert!(r.get_job("ja").is_none());
    assert!(r.get_job("jb").is_some());
    r.delete_account("acc1");
    assert_eq!(r.get_app("b").unwrap().account_id, None);
    assert!(!r.account_exists("acc1"));
    r.delete_app("b");
    assert!(r.get_job("jb").is_none());
}

#[test]
fn accounts_upsert_by_apple_id() {
    let mut r = setup();
    r.insert_account("acc2", "me@example.com", &[1], None, Some("Other")).unwrap();
    let rows = r.list_accounts();
    assert_eq!(rows.len(), 1);
    assert_eq!(rows[0].id, "acc1");
    assert_eq!(rows[0].team_id, None);
    assert_eq!(rows[0].team_name.as_deref(), Some("Other"));
    assert_eq!(r.get_account_session("acc1"), Some(vec![1]));
    assert_eq!(r.insert_account("acc1", "b@example.com", &[2], None, None), Err(DbError::Conflict));
    r.insert_account("acc3", "a@example.com", &[3], None, None).unwrap();
    let ids: Vec<String> = r.list_accounts().into_iter().map(|a| a.apple_id).collect();
    assert_eq!(ids, vec!["a@example.com".to_string(), "me@example.com".to_string()]);
    assert_eq!(r.account_credentials("acc3"), Some(("a@example.com".to_string(), vec![3])));
}

#[test]
fn jobs_and_queue_order() {
    let mut r = setup();
    r.upsert_app("a", "d1", "com.a", "A", None, None, None).unwrap();
    assert_eq!(r.insert_job("j0", "missing", "install"), Err(DbError::MissingReference));
    r.insert_job("j1", "a", "install").unwrap();
    r.insert_job("j2", "a", "refresh").unwrap();
    r.insert_job("j3", "a", "refresh").unwrap();
    assert_eq!(r.insert_job("j1", "a", "install"), Err(DbError::Conflict));
    r.update_job_status_at("j1", "running", None, 10);
    r.update_job_status_at("j3", "failed", Some("boom"), 20);
    r.update_job_progress("j1", 40, "uploading");
    let j1 = r.get_job("j1").unwrap();
    assert_eq!(j1.status, "running");
    assert_eq!(j1.started_at, Some(10));
    assert_eq!(j1.progress, 40);
    assert_eq!(j1.stage.as_deref(), Some("uploading"));
    let j3 = r.get_job("j3").unwrap();
    assert_eq!(j3.error.as_deref(), Some("boom"));
    assert_eq!(j3.finished_at, Some(20));
    let q: Vec<String> = r.list_jobs(20).into_iter().map(|j| j.id).collect();
    assert_eq!(q, vec!["j1".to_string(), "j2".to_string(), "j3".to_string()]);
    let q = r.list_jobs(2);
    assert_eq!(q.len(), 2);
    assert_eq!(q[0].app_name, "A");
    assert_eq!(q[0].device_name, "Phone");
    assert_eq!(r.list_jobs(-1).len(), 3);
}

#[test]
fn refresh_window_selects_due_apps() {
    let mut r = setup();
    let day = 86400;
    r.upsert_app("due", "d1", "com.due", "Due", None, Some("/i/due.ipa"), Some("acc1")).unwrap();
    r.upsert_app("fresh", "d1", "com.fresh", "Fresh", None, Some("/i/f.ipa"), Some("acc1")).unwrap();
    r.upsert_app("noipa", "d1", "com.n", "N", None, None, Some("acc1")).unwrap();
    r.mark_app_installed_at("due", "com.due", 0);
    r.mark_app_installed_at("fresh", "com.fresh", 4 * day);
    r.mark_app_installed_at("noipa", "com.n", 0);
    let now = 5 * day;
    let due: Vec<String> = r.apps_needing_refresh_at(3, now).into_iter().map(|a| a.id).collect();
    assert_eq!(due, vec!["due".to_string()]);
    r.set_app_refresh("due", false);
    assert!(r.apps_needing_refresh_at(3, now).is_empty());
    let listed: Vec<String> = r.list_apps_for_device("d1").into_iter().map(|a| a.display_name).collect();
    assert_eq!(listed, vec!["Due".to_string(), "Fresh".to_string(), "N".to_string()]);
}

#[test]
fn restores_rows_read_back_from_storage() {
    let mut r = Registry::new();
    let dev = |id: &str, udid: &str| DeviceRow {
        id: id.into(),
        name: "n".into(),
        udid: udid.into(),
        ip: "ip".into(),
        port: 49152,
        pairing_blob: vec![],
        last_seen: None,
        discovery: "static".into(),
        mdns_ip: None,
        mdns_seen_at: None,
    };
    assert_eq!(r.restore_device(dev("d", "u")), Ok(()));
    assert_eq!(r.restore_device(dev("d2", "u")), Err(DbError::Conflict));
    let acc = AccountEntry {
        row: AccountRow { id: "a".into(), apple_id: "x@y".into(), team_id: None, team_name: None },
        session_blob: vec![1],
    };
    assert_eq!(r.restore_account(acc), Ok(()));
    let app = |id: &str, dev: &str, acc: Option<&str>| AppRow {
        id: id.into(),
        device_id: dev.into(),
        bundle_id: "b".into(),
        display_name: "A".into(),
        version: None,
        ipa_path: None,
        account_id: acc.map(|s| s.to_string()),
        installed_at: Some(5),
        last_refreshed: Some(6),
        refresh_enabled: false,
    };
    assert_eq!(r.restore_app(app("p", "nope", None)), Err(DbError::MissingReference));
    assert_eq!(r.restore_app(app("p", "d", Some("zz"))), Err(DbError::MissingReference));
    assert_eq!(r.restore_app(app("p", "d", Some("a"))), Ok(()));
    assert_eq!(r.restore_app(app("q", "d", None)), Err(DbError::Conflict));
    assert_eq!(r.get_app("p").unwrap().last_refreshed, Some(6));
    let job = |id: &str, app: &str| JobRow {
        id: id.into(),
        app_id: app.into(),
        kind: "install".into(),
        status: "done".into(),
        error: None,
        started_at: Some(1),
        finished_at: Some(2),
        progress: 100,
        stage: None,
    };
    assert_eq!(r.restore_job(job("j", "zz")), Err(DbError::MissingReference));
    assert_eq!(r.restore_job(job("j", "p")), Ok(()));
    assert_eq!(r.restore_job(job("j", "p")), Err(DbError::Conflict));
}
