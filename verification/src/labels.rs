//! Short texts and CSS classes the portal shows for devices, apps and jobs.

use vstd::prelude::*;
use crate::clock::now_unix_secs;
use crate::duration::{duration_label, round_up_duration};
use crate::expiry::{clamp_i64, clamped_diff};
use crate::text::{decimal, push_decimal, push_str, str_eq};

verus! {

/// The reachability text and badge class for a device: a live probe's round
/// trip when it answered, else how long ago mDNS last saw it.
pub open spec fn connection_text(reachable_ms: Option<u64>, mdns_seen_at: Option<i64>, now: int) -> (
    Seq<char>,
    Seq<char>,
) {
    match reachable_ms {
        Some(ms) => ("Online ("@ + decimal(ms as nat) + "ms)"@, "badge-online"@),
        None => match mdns_seen_at {
            None => ("Not reachable"@, "badge-offline"@),
            Some(seen) => {
                let age = now - seen;
                if age < 3600 {
                    (
                        "Seen "@ + decimal(
                            if age < 60 {
                                1
                            } else {
                                (age / 60) as nat
                            },
                        ) + "m ago"@,
                        "badge-stale"@,
                    )
                } else if age < 86400 {
                    ("Seen "@ + decimal((age / 3600) as nat) + "h ago"@, "badge-offline"@)
                } else {
                    ("Seen "@ + decimal((age / 86400) as nat) + "d ago"@, "badge-offline"@)
                }
            },
        },
    }
}

/// The reachability label and badge class at time `now`.
pub fn connection_status_at(reachable_ms: Option<u64>, mdns_seen_at: Option<i64>, now: i64) -> (r: (
    String,
    &'static str,
))
    ensures
        (r.0@, r.1@) == connection_text(reachable_ms, mdns_seen_at, now as int),
{
    if let Some(ms) = reachable_ms {
        let mut s = String::from_str("Online (");
        push_decimal(&mut s, ms);
        push_str(&mut s, "ms)");
        return (s, "badge-online");
    }
    let seen = match mdns_seen_at {
        None => {
            return (String::from_str("Not reachable"), "badge-offline");
        },
        Some(t) => t,
    };
    let age: i128 = now as i128 - seen as i128;
    let mut s = String::from_str("Seen ");
    if age < 3600 {
        let minutes: u64 = if age < 60 {
            1
        } else {
            (age / 60) as u64
        };
        push_decimal(&mut s, minutes);
        push_str(&mut s, "m ago");
        (s, "badge-stale")
    } else if age < 86400 {
        push_decimal(&mut s, (age / 3600) as u64);
        push_str(&mut s, "h ago");
        (s, "badge-offline")
    } else {
        assert(age / 86400 <= u64::MAX) by (nonlinear_arith)
            requires
                age <= i64::MAX - i64::MIN,
                age >= 86400,
        ;
        push_decimal(&mut s, (age / 86400) as u64);
        push_str(&mut s, "d ago");
        (s, "badge-offline")
    }
}

/// The reachability label and badge class, measured against the current time.
pub fn connection_status(reachable_ms: Option<u64>, mdns_seen_at: Option<i64>) -> (r: (
    String,
    &'static str,
))
    ensures
        exists|now: i64| (r.0@, r.1@) == connection_text(reachable_ms, mdns_seen_at, now as int),
{
    let now = now_unix_secs();
    let r = connection_status_at(reachable_ms, mdns_seen_at, now);
    assert((r.0@, r.1@) == connection_text(reachable_ms, mdns_seen_at, now as int));
    r
}

/// The "next expiry" line of a dashboard card.
pub open spec fn expiry_line_text(
    next_expires_at: Option<i64>,
    app_count: nat,
    expired_count: nat,
    now: int,
) -> Seq<char> {
    if app_count == 0 {
        "No apps tracked"@
    } else {
        match next_expires_at {
            Some(ts) => "Next expires in "@ + duration_label(clamp_i64(ts - now)),
            None => if expired_count > 0 {
                "All expired"@
            } else {
                "\u{2014}"@
            },
        }
    }
}

/// The "next expiry" line of a dashboard card at time `now`.
pub fn expiry_line(next_expires_at: Option<i64>, app_count: usize, expired_count: usize, now: i64) -> (s:
    String)
    ensures
        s@ == expiry_line_text(next_expires_at, app_count as nat, expired_count as nat, now as int),
{
    if app_count == 0 {
        return String::from_str("No apps tracked");
    }
    match next_expires_at {
        Some(ts) => {
            let mut s = String::from_str("Next expires in ");
            let d = round_up_duration(clamped_diff(ts, now));
            push_str(&mut s, d.as_str());
            s
        },
        None => if expired_count > 0 {
            String::from_str("All expired")
        } else {
            String::from_str("\u{2014}")
        },
    }
}

/// The CSS class of the "next expiry" line.
pub open spec fn expiry_class_text(
    next_expires_at: Option<i64>,
    app_count: nat,
    expired_count: nat,
    threshold_secs: int,
    now: int,
) -> Seq<char> {
    if app_count == 0 {
        "summary-next muted"@
    } else {
        match next_expires_at {
            Some(ts) => if ts - now <= threshold_secs {
                "summary-next warn"@
            } else {
                "summary-next"@
            },
            None => if expired_count > 0 {
                "summary-next danger"@
            } else {
                "summary-next muted"@
            },
        }
    }
}

/// The CSS class of the "next expiry" line at time `now`.
pub fn expiry_class(
    next_expires_at: Option<i64>,
    app_count: usize,
    expired_count: usize,
    threshold_secs: i64,
    now: i64,
) -> (c: &'static str)
    ensures
        c@ == expiry_class_text(
            next_expires_at,
            app_count as nat,
            expired_count as nat,
            threshold_secs as int,
            now as int,
        ),
{
    if app_count == 0 {
        return "summary-next muted";
    }
    match next_expires_at {
        Some(ts) => if (ts as i128) - (now as i128) <= threshold_secs as i128 {
            "summary-next warn"
        } else {
            "summary-next"
        },
        None => if expired_count > 0 {
            "summary-next danger"
        } else {
            "summary-next muted"
        },
    }
}

/// The "N expiring soon, M expired" line, absent when both are zero.
pub open spec fn counts_text(expiring_soon: nat, expired: nat) -> Option<Seq<char>> {
    let soon = decimal(expiring_soon) + " expiring soon"@;
    let gone = decimal(expired) + " expired"@;
    if expiring_soon == 0 && expired == 0 {
        None
    } else if expiring_soon > 0 && expired > 0 {
        Some(soon + ", "@ + gone)
    } else if expiring_soon > 0 {
        Some(soon)
    } else {
        Some(gone)
    }
}

/// The "N expiring soon, M expired" line of a dashboard card.
pub fn counts_line(expiring_soon: usize, expired: usize) -> (s: Option<String>)
    ensures
        crate::text::opt_view(s) == counts_text(expiring_soon as nat, expired as nat),
{
    if expiring_soon == 0 && expired == 0 {
        return None;
    }
    let mut s = String::new();
    if expiring_soon > 0 {
        push_decimal(&mut s, expiring_soon as u64);
        push_str(&mut s, " expiring soon");
    }
    if expired > 0 {
        if expiring_soon > 0 {
            push_str(&mut s, ", ");
        }
        push_decimal(&mut s, expired as u64);
        push_str(&mut s, " expired");
    }
    assert(Seq::<char>::empty() + decimal(expiring_soon as nat) =~= decimal(expiring_soon as nat));
    assert(Seq::<char>::empty() + decimal(expired as nat) =~= decimal(expired as nat));
    Some(s)
}

/// The number of App ID slots in use: the team maximum less the slots still
/// available (a negative availability counts as none), never below zero.
pub open spec fn slots_used(max: u64, available: i64) -> nat {
    let avail: int = if available < 0 {
        0
    } else {
        available as int
    };
    if avail >= max {
        0
    } else {
        (max - avail) as nat
    }
}

/// The summary line over a team's App IDs.
pub open spec fn slots_text(max_quantity: Option<u64>, available_quantity: Option<i64>, entries: nat) -> Seq<
    char,
> {
    match (max_quantity, available_quantity) {
        (Some(max), Some(avail)) => decimal(slots_used(max, avail)) + " / "@ + decimal(max as nat)
            + " slots used"@,
        _ => decimal(entries) + " registered"@,
    }
}

/// "U / M slots used" when Apple reports both the team maximum and what is
/// available, else "N registered".
pub fn slots_summary(max_quantity: Option<u64>, available_quantity: Option<i64>, entries: usize) -> (s:
    String)
    ensures
        s@ == slots_text(max_quantity, available_quantity, entries as nat),
{
    let mut s = String::new();
    match (max_quantity, available_quantity) {
        (Some(max), Some(avail)) => {
            let a: u64 = if avail < 0 {
                0
            } else {
                avail as u64
            };
            let used: u64 = max.saturating_sub(a);
            push_decimal(&mut s, used);
            push_str(&mut s, " / ");
            push_decimal(&mut s, max);
            push_str(&mut s, " slots used");
        },
        _ => {
            push_decimal(&mut s, entries as u64);
            push_str(&mut s, " registered");
        },
    }
    assert(s@ =~= slots_text(max_quantity, available_quantity, entries as nat));
    s
}

/// The "expires in" label of an App ID and its CSS class: `error` once the
/// certificate has run out (the label then reads "Expired").
pub open spec fn app_id_expiry_text(expiration_date: Option<i64>, now: int) -> (Seq<char>, Seq<char>) {
    match expiration_date {
        Some(ts) => (
            duration_label(clamp_i64(ts - now)),
            if clamp_i64(ts - now) <= 0 {
                "error"@
            } else {
                ""@
            },
        ),
        None => ("-"@, ""@),
    }
}

/// The "expires in" label of an App ID and its CSS class at time `now`.
pub fn app_id_expiry_at(expiration_date: Option<i64>, now: i64) -> (r: (String, &'static str))
    ensures
        (r.0@, r.1@) == app_id_expiry_text(expiration_date, now as int),
{
    match expiration_date {
        Some(ts) => {
            let remaining = clamped_diff(ts, now);
            let label = round_up_duration(remaining);
            (label, if remaining <= 0 {
                "error"
            } else {
                ""
            })
        },
        None => (String::from_str("-"), ""),
    }
}

/// The badge class for a job status.
pub open spec fn status_badge_text(status: Seq<char>) -> Seq<char> {
    if status == "done"@ {
        "job-badge job-done"@
    } else if status == "failed"@ {
        "job-badge job-failed"@
    } else if status == "running"@ {
        "job-badge job-running"@
    } else {
        "job-badge job-queued"@
    }
}

/// The badge class for a job status.
pub fn status_badge_class(status: &str) -> (c: &'static str)
    ensures
        c@ == status_badge_text(status@),
{
    if str_eq(status, "done") {
        "job-badge job-done"
    } else if str_eq(status, "failed") {
        "job-badge job-failed"
    } else if str_eq(status, "running") {
        "job-badge job-running"
    } else {
        "job-badge job-queued"
    }
}

/// The CSS class of an "expires in" cell: `error` once the label reads
/// "Expired".
pub fn expiry_cell_class(label: &str) -> (c: &'static str)
    ensures
        c@ == (if label@ == "Expired"@ {
            "error"@
        } else {
            ""@
        }),
{
    if str_eq(label, "Expired") {
        "error"
    } else {
        ""
    }
}

/// A character as it stands in a URL query value: the characters that Base64
/// uses and a query gives a meaning to (`+`, `/`, `=`) percent-encoded.
pub open spec fn query_char(c: char) -> Seq<char> {
    if c == '+' {
        "%2B"@
    } else if c == '/' {
        "%2F"@
    } else if c == '=' {
        "%3D"@
    } else {
        seq![c]
    }
}

/// Base64 text made safe for a URL query value.
pub open spec fn query_escaped(s: Seq<char>) -> Seq<char>
    decreases s.len(),
{
    if s.len() == 0 {
        Seq::empty()
    } else {
        query_escaped(s.drop_last()) + query_char(s.last())
    }
}

/// The link that imports a PKCS#12 certificate into LiveContainer.
pub open spec fn lc_import_text(p12_b64: Seq<char>, password: Seq<char>) -> Seq<char> {
    "livecontainer://certificate?cert="@ + query_escaped(p12_b64) + "&password="@ + password
}

/// The LiveContainer import link for a Base64 PKCS#12 file and its password.
pub fn lc_import_link(p12_b64: &str, password: &str) -> (r: String)
    ensures
        r@ == lc_import_text(p12_b64@, password@),
{
    let mut r = String::from_str("livecontainer://certificate?cert=");
    let ghost head = r@;
    let n = p12_b64.unicode_len();
    let mut i: usize = 0;
    while i < n
        invariant
            n == p12_b64@.len(),
            i <= n,
            r@ == head + query_escaped(p12_b64@.take(i as int)),
        decreases n - i,
    {
        let c = p12_b64.get_char(i);
        let ghost before = r@;
        if c == '+' {
            push_str(&mut r, "%2B");
        } else if c == '/' {
            push_str(&mut r, "%2F");
        } else if c == '=' {
            push_str(&mut r, "%3D");
        } else {
            crate::text::push_char(&mut r, c);
        }
        proof {
            let t = p12_b64@.take(i + 1);
            assert(t.drop_last() =~= p12_b64@.take(i as int));
            assert(t.last() == c);
            assert(r@ =~= before + query_char(c));
            assert(r@ =~= head + query_escaped(t));
        }
        i = i + 1;
    }
    assert(p12_b64@.take(n as int) =~= p12_b64@);
    push_str(&mut r, "&password=");
    push_str(&mut r, password);
    r
}

} // verus!
