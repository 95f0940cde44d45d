//! Certificate expiry: Apple's seven-day development certificates, counted from
//! an app's last install or refresh, and the labels the portal shows for them.

use vstd::prelude::*;
use crate::clock::now_unix_secs;
use crate::duration::{duration_label, round_up_duration};
use crate::records::AppRow;
use crate::text::{decimal, push_decimal, push_str};

verus! {

/// Lifetime of a free developer certificate, in seconds (seven days).
pub const CERT_LIFETIME_SECS: i64 = 604800;

/// `x` limited to the range of `i64`.
pub open spec fn clamp_i64(x: int) -> int {
    if x > i64::MAX {
        i64::MAX as int
    } else if x < i64::MIN {
        i64::MIN as int
    } else {
        x
    }
}

/// The later of the install time and the last refresh.
pub open spec fn last_event(installed: int, last_refreshed: Option<i64>) -> int {
    match last_refreshed {
        Some(r) => if r > installed {
            r as int
        } else {
            installed
        },
        None => installed,
    }
}

/// When the certificate of an app installed at `installed` runs out
/// (held at `i64::MAX` where the sum would not fit).
pub open spec fn expiry_time(installed: int, last_refreshed: Option<i64>) -> int {
    clamp_i64(last_event(installed, last_refreshed) + CERT_LIFETIME_SECS)
}

/// The expiry time of a certificate whose app was installed at `installed`
/// and last refreshed at `last_refreshed`.
pub fn cert_expires_at(installed: i64, last_refreshed: Option<i64>) -> (t: i64)
    ensures
        t == expiry_time(installed as int, last_refreshed),
{
    let last: i64 = match last_refreshed {
        Some(r) => if r > installed {
            r
        } else {
            installed
        },
        None => installed,
    };
    if last > i64::MAX - CERT_LIFETIME_SECS {
        i64::MAX
    } else {
        last + CERT_LIFETIME_SECS
    }
}

/// `a - b`, held within the range of `i64`.
pub fn clamped_diff(a: i64, b: i64) -> (d: i64)
    ensures
        d == clamp_i64(a - b),
{
    let d: i128 = a as i128 - b as i128;
    if d > i64::MAX as i128 {
        i64::MAX
    } else if d < i64::MIN as i128 {
        i64::MIN
    } else {
        d as i64
    }
}

/// The "expires in" text for an app: `-` while it was never installed.
pub open spec fn expires_in_text(
    installed_at: Option<i64>,
    last_refreshed: Option<i64>,
    now: int,
) -> Seq<char> {
    match installed_at {
        None => "-"@,
        Some(i) => duration_label(clamp_i64(expiry_time(i as int, last_refreshed) - now)),
    }
}

/// The "expires in" label at time `now`.
pub fn expires_in_label_at(installed_at: Option<i64>, last_refreshed: Option<i64>, now: i64) -> (label:
    String)
    ensures
        label@ == expires_in_text(installed_at, last_refreshed, now as int),
{
    match installed_at {
        None => String::from_str("-"),
        Some(installed) => {
            let expires_at = cert_expires_at(installed, last_refreshed);
            round_up_duration(clamped_diff(expires_at, now))
        },
    }
}

/// The "expires in" label for an app, measured against the current time.
pub fn expires_in_label(installed_at: Option<i64>, last_refreshed: Option<i64>) -> (label: String)
    ensures
        exists|now: i64| label@ == expires_in_text(installed_at, last_refreshed, now as int),
{
    let now = now_unix_secs();
    let label = expires_in_label_at(installed_at, last_refreshed, now);
    assert(label@ == expires_in_text(installed_at, last_refreshed, now as int));
    label
}

/// What the dashboard counts over a device's apps.
pub struct ExpiryTally {
    pub installed: nat,
    pub soon: nat,
    pub expired: nat,
    pub next: Option<int>,
}

/// The expiry time of an installed app.
pub open spec fn app_expiry(a: AppRow) -> int {
    expiry_time(a.installed_at->0 as int, a.last_refreshed)
}

/// One app's contribution to the tally: apps that were never installed are
/// skipped; an installed app is expired when nothing remains, expiring soon when
/// at most `window` seconds remain, and the earliest unexpired expiry is kept.
pub open spec fn tally_step(t: ExpiryTally, a: AppRow, now: int, window: int) -> ExpiryTally {
    if a.installed_at is None {
        t
    } else {
        let e = app_expiry(a);
        let remaining = e - now;
        if remaining <= 0 {
            ExpiryTally { installed: t.installed + 1, expired: t.expired + 1, ..t }
        } else {
            ExpiryTally {
                installed: t.installed + 1,
                soon: if remaining <= window {
                    t.soon + 1
                } else {
                    t.soon
                },
                next: match t.next {
                    Some(p) => Some(if e < p {
                        e
                    } else {
                        p
                    }),
                    None => Some(e),
                },
                ..t
            }
        }
    }
}

/// The tally over a sequence of apps.
pub open spec fn expiry_tally(apps: Seq<AppRow>, now: int, window: int) -> ExpiryTally
    decreases apps.len(),
{
    if apps.len() == 0 {
        ExpiryTally { installed: 0, soon: 0, expired: 0, next: None }
    } else {
        tally_step(expiry_tally(apps.drop_last(), now, window), apps.last(), now, window)
    }
}

/// The counts a dashboard card shows for one device.
pub struct ExpiryCounts {
    pub app_count: usize,
    pub expiring_soon_count: usize,
    pub expired_count: usize,
    pub next_expires_at: Option<i64>,
}

impl ExpiryCounts {
    pub open spec fn matches(self, t: ExpiryTally) -> bool {
        &&& self.app_count == t.installed
        &&& self.expiring_soon_count == t.soon
        &&& self.expired_count == t.expired
        &&& match self.next_expires_at {
            Some(x) => t.next == Some(x as int),
            None => t.next is None,
        }
    }
}

proof fn lemma_tally_bounded(apps: Seq<AppRow>, now: int, window: int)
    ensures
        expiry_tally(apps, now, window).installed <= apps.len(),
        expiry_tally(apps, now, window).soon + expiry_tally(apps, now, window).expired
            <= expiry_tally(apps, now, window).installed,
        expiry_tally(apps, now, window).next matches Some(x) ==> i64::MIN <= x <= i64::MAX,
    decreases apps.len(),
{
    if apps.len() > 0 {
        lemma_tally_bounded(apps.drop_last(), now, window);
    }
}

/// Counts the installed, expiring-soon and expired apps of one device and finds
/// the earliest expiry still ahead, at time `now`, with `window_secs` as the
/// "expiring soon" threshold.
pub fn tally_expiry(apps: &Vec<AppRow>, now: i64, window_secs: i64) -> (c: ExpiryCounts)
    ensures
        c.matches(expiry_tally(apps@, now as int, window_secs as int)),
{
    let mut c = ExpiryCounts {
        app_count: 0,
        expiring_soon_count: 0,
        expired_count: 0,
        next_expires_at: None,
    };
    let mut i: usize = 0;
    while i < apps.len()
        invariant
            i <= apps.len(),
            c.matches(expiry_tally(apps@.take(i as int), now as int, window_secs as int)),
        decreases apps.len() - i,
    {
        let a = &apps[i];
        proof {
            assert(apps@.take(i + 1).drop_last() =~= apps@.take(i as int));
            assert(apps@.take(i + 1).last() == apps@[i as int]);
            lemma_tally_bounded(apps@.take(i as int), now as int, window_secs as int);
        }
        match a.installed_at {
            None => {},
            Some(installed) => {
                let expires_at = cert_expires_at(installed, a.last_refreshed);
                let remaining: i128 = expires_at as i128 - now as i128;
                c.app_count = c.app_count + 1;
                if remaining <= 0 {
                    c.expired_count = c.expired_count + 1;
                } else {
                    if remaining <= window_secs as i128 {
                        c.expiring_soon_count = c.expiring_soon_count + 1;
                    }
                    c.next_expires_at = Some(
                        match c.next_expires_at {
                            Some(p) => if expires_at < p {
                                expires_at
                            } else {
                                p
                            },
                            None => expires_at,
                        },
                    );
                }
            },
        }
        i = i + 1;
    }
    assert(apps@.take(apps.len() as int) =~= apps@);
    c
}

/// Of the tally: expiring-soon and expired apps are counted among the installed
/// ones; there is no next expiry exactly when every installed app has expired;
/// and a next expiry lies ahead of `now`, belongs to an installed app, and no
/// installed unexpired app expires earlier.
pub proof fn lemma_expiry_tally_consistent(apps: Seq<AppRow>, now: int, window: int)
    ensures
        ({
            let t = expiry_tally(apps, now, window);
            &&& t.soon + t.expired <= t.installed <= apps.len()
            &&& (t.next is None <==> t.expired == t.installed)
            &&& t.next is None ==> forall|j: int|
                0 <= j < apps.len() && (#[trigger] apps[j]).installed_at is Some ==> app_expiry(
                    apps[j],
                ) <= now
            &&& t.next matches Some(x) ==> {
                &&& x > now
                &&& exists|i: int|
                    0 <= i < apps.len() && (#[trigger] apps[i]).installed_at is Some
                        && app_expiry(apps[i]) == x
                &&& forall|j: int|
                    0 <= j < apps.len() && (#[trigger] apps[j]).installed_at is Some
                        && app_expiry(apps[j]) > now ==> app_expiry(apps[j]) >= x
            }
        }),
    decreases apps.len(),
{
    lemma_tally_bounded(apps, now, window);
    if apps.len() > 0 {
        let init = apps.drop_last();
        lemma_expiry_tally_consistent(init, now, window);
        let t0 = expiry_tally(init, now, window);
        let t = expiry_tally(apps, now, window);
        let a = apps.last();
        assert(forall|j: int| 0 <= j < init.len() ==> init[j] == apps[j]);
        assert(apps[apps.len() - 1] == a);
        if t.next is None {
            assert forall|j: int|
                0 <= j < apps.len() && (#[trigger] apps[j]).installed_at is Some implies app_expiry(
                    apps[j],
                ) <= now by {
                if j < init.len() {
                    assert(init[j] == apps[j]);
                }
            }
        }
        if let Some(x) = t.next {
            if a.installed_at is Some && app_expiry(a) - now > 0 && (t0.next is None
                || app_expiry(a) < t0.next->0) {
                assert(apps[apps.len() - 1] == a);
            } else {
                let i0 = choose|i: int|
                    0 <= i < init.len() && (#[trigger] init[i]).installed_at is Some
                        && app_expiry(init[i]) == t0.next->0;
                assert(apps[i0] == init[i0]);
            }
            assert forall|j: int|
                0 <= j < apps.len() && (#[trigger] apps[j]).installed_at is Some && app_expiry(
                    apps[j],
                ) > now implies app_expiry(apps[j]) >= x by {
                if j < init.len() {
                    assert(init[j] == apps[j]);
                    assert(init[j].installed_at is Some && app_expiry(init[j]) > now);
                }
            }
        }
    }
}

/// The "expiring soon" threshold in seconds for a window of `days` days
/// (held within `i64`).
pub fn window_secs(days: i64) -> (s: i64)
    ensures
        s == clamp_i64(days * 86400),
{
    let p: i128 = days as i128 * 86400;
    if p > i64::MAX as i128 {
        i64::MAX
    } else if p < i64::MIN as i128 {
        i64::MIN
    } else {
        p as i64
    }
}

/// When the certificate of an installed app runs out: seven days after the
/// later of its install and its last refresh (held at `i64::MAX`).
pub open spec fn certificate_end(a: AppRow) -> int {
    let installed = a.installed_at->0 as int;
    let last = match a.last_refreshed {
        Some(r) => if r > installed {
            r as int
        } else {
            installed
        },
        None => installed,
    };
    if last + 604800 > i64::MAX {
        i64::MAX as int
    } else {
        last + 604800
    }
}

/// The apps that were installed.
pub open spec fn installed_app() -> spec_fn(AppRow) -> bool {
    |a: AppRow| a.installed_at is Some
}

/// The installed apps whose certificate has run out at `now`.
pub open spec fn expired_at(now: int) -> spec_fn(AppRow) -> bool {
    |a: AppRow| a.installed_at is Some && certificate_end(a) <= now
}

/// The installed apps whose certificate is still good at `now` but runs out
/// within `window` seconds.
pub open spec fn expiring_within(now: int, window: int) -> spec_fn(AppRow) -> bool {
    |a: AppRow| a.installed_at is Some && now < certificate_end(a) && certificate_end(a) <= now + window
}

/// The dashboard counts every installed app once, whether or not it was ever
/// refreshed: the installed count is the number of installed apps, the expired
/// count the number whose certificate has run out, and the expiring-soon count
/// the number whose certificate is still good but runs out within the window.
pub proof fn lemma_tally_counts(apps: Seq<AppRow>, now: int, window: int)
    ensures
        expiry_tally(apps, now, window).installed == apps.filter(installed_app()).len(),
        expiry_tally(apps, now, window).expired == apps.filter(expired_at(now)).len(),
        expiry_tally(apps, now, window).soon == apps.filter(expiring_within(now, window)).len(),
    decreases apps.len(),
{
    if apps.len() == 0 {
        assert(apps.filter(installed_app()) =~= Seq::<AppRow>::empty()) by { reveal(Seq::filter); }
        assert(apps.filter(expired_at(now)) =~= Seq::<AppRow>::empty()) by { reveal(Seq::filter); }
        assert(apps.filter(expiring_within(now, window)) =~= Seq::<AppRow>::empty()) by { reveal(Seq::filter); }
    } else {
        let init = apps.drop_last();
        let x = apps.last();
        lemma_tally_counts(init, now, window);
        assert(init.push(x) =~= apps);
        init.lemma_filter_push(x, installed_app());
        init.lemma_filter_push(x, expired_at(now));
        init.lemma_filter_push(x, expiring_within(now, window));
        if x.installed_at is Some {
            assert(app_expiry(x) == certificate_end(x));
        }
    }
}

} // verus!
