//! Uploading a signed IPA to a device in chunks, and the progress reported
//! while it uploads (up to 90%) and installs (90% to 100%).

use vstd::prelude::*;
use vstd::arithmetic::div_mod::{lemma_div_is_ordered, lemma_multiply_divide_lt, lemma_div_by_multiple};
use vstd::arithmetic::mul::lemma_mul_is_commutative;

verus! {

/// The smallest chunk an upload uses, in bytes.
pub const MIN_CHUNK: usize = 262144;

/// The chunk size for an upload of `total` bytes: a twentieth of it, but at
/// least 256 KiB.
pub open spec fn chunk_size(total: nat) -> nat {
    if total / 20 > MIN_CHUNK {
        total / 20
    } else {
        MIN_CHUNK as nat
    }
}

/// The chunk size for an upload of `total` bytes.
pub fn upload_chunk_size(total: usize) -> (r: usize)
    ensures
        r == chunk_size(total as nat),
{
    let t = total / 20;
    if t > MIN_CHUNK {
        t
    } else {
        MIN_CHUNK
    }
}

/// The upload's share of the progress bar once `written` of `total` bytes are
/// on the device: up to 90%.
pub open spec fn upload_percent(written: nat, total: nat) -> nat {
    (written * 90 / total) as nat
}

/// The chunks still to send once `written` bytes are on the device: each
/// chunk's length, and the percentage to report after it, which is reported
/// only when it grew past the last one reported.
pub open spec fn upload_steps_from(total: nat, size: nat, written: nat, last: nat) -> Seq<(nat, Option<nat>)>
    decreases total - written,
{
    if written >= total || size == 0 {
        Seq::empty()
    } else {
        let len: nat = if size < total - written {
            size
        } else {
            (total - written) as nat
        };
        let w = written + len;
        let pct = upload_percent(w, total);
        if pct > last {
            seq![(len, Some(pct))] + upload_steps_from(total, size, w, pct)
        } else {
            seq![(len, None)] + upload_steps_from(total, size, w, last)
        }
    }
}

/// The whole upload of `total` bytes.
pub open spec fn upload_steps(total: nat) -> Seq<(nat, Option<nat>)> {
    upload_steps_from(total, chunk_size(total), 0, 0)
}

/// One chunk of an upload and the percentage to report after sending it.
pub struct UploadStep {
    pub len: usize,
    pub report: Option<u64>,
}

pub open spec fn step_view(s: UploadStep) -> (nat, Option<nat>) {
    (
        s.len as nat,
        match s.report {
            Some(p) => Some(p as nat),
            None => None,
        },
    )
}

/// The chunks in which to upload `total` bytes and what to report after each.
pub fn upload_plan(total: usize) -> (r: Vec<UploadStep>)
    ensures
        r@.map_values(|s: UploadStep| step_view(s)) == upload_steps(total as nat),
{
    let size = upload_chunk_size(total);
    let mut written: usize = 0;
    let mut last: u64 = 0;
    let mut out: Vec<UploadStep> = Vec::new();
    assert(out@.map_values(|s: UploadStep| step_view(s)) =~= Seq::<(nat, Option<nat>)>::empty());
    while written < total
        invariant
            written <= total,
            size == chunk_size(total as nat),
            last <= 90,
            out@.map_values(|s: UploadStep| step_view(s)) + upload_steps_from(total as nat, size as nat, written as nat, last as nat)
                == upload_steps(total as nat),
        decreases total - written,
    {
        let len: usize = if size < total - written {
            size
        } else {
            total - written
        };
        let w: usize = written + len;
        proof {
            lemma_percent_bounds(w as nat, total as nat);
        }
        let pct: u64 = ((w as u128 * 90) / (total as u128)) as u64;
        assert(pct == upload_percent(w as nat, total as nat));
        let ghost before = out@.map_values(|s: UploadStep| step_view(s));
        let report = if pct > last {
            Some(pct)
        } else {
            None
        };
        let step = UploadStep { len, report };
        out.push(step);
        proof {
            assert(out@.map_values(|s: UploadStep| step_view(s)) =~= before.push(step_view(step)));
            let rest = upload_steps_from(total as nat, size as nat, written as nat, last as nat);
            let next_last: nat = if pct > last { pct as nat } else { last as nat };
            assert(rest == seq![step_view(step)] + upload_steps_from(total as nat, size as nat, w as nat, next_last));
            assert(before.push(step_view(step)) + upload_steps_from(total as nat, size as nat, w as nat, next_last)
                =~= before + rest);
        }
        if pct > last {
            last = pct;
        }
        written = w;
    }
    assert(upload_steps_from(total as nat, size as nat, written as nat, last as nat) =~= Seq::<(nat, Option<nat>)>::empty());
    assert(out@.map_values(|s: UploadStep| step_view(s)) =~= upload_steps(total as nat));
    out
}

proof fn lemma_percent_bounds(w: nat, total: nat)
    requires
        total > 0,
        w <= total,
    ensures
        upload_percent(w, total) <= 90,
        w < total ==> upload_percent(w, total) < 90,
        w == total ==> upload_percent(w, total) == 90,
{
    lemma_mul_is_commutative(total as int, 90);
    lemma_div_by_multiple(90, total as int);
    lemma_div_is_ordered((w * 90) as int, (total * 90) as int, total as int);
    if w < total {
        assert(w * 90 < total * 90) by (nonlinear_arith)
            requires w < total;
        lemma_multiply_divide_lt((w * 90) as int, total as int, 90);
    }
}

/// The total length of the chunks.
pub open spec fn total_len(s: Seq<(nat, Option<nat>)>) -> nat
    decreases s.len(),
{
    if s.len() == 0 {
        0
    } else {
        s[0].0 + total_len(s.drop_first())
    }
}

/// The reported percentages grow strictly from one report to the next.
pub open spec fn reports_increase(s: Seq<(nat, Option<nat>)>) -> bool {
    forall|i: int, j: int|
        0 <= i < j < s.len() && (#[trigger] s[i]).1 is Some && (#[trigger] s[j]).1 is Some ==> s[i].1->0 < s[j].1->0
}

proof fn lemma_steps_from(total: nat, size: nat, written: nat, last: nat)
    requires
        size > 0,
        written <= total,
        total > 0,
        last <= upload_percent(written, total),
    ensures
        ({
            let s = upload_steps_from(total, size, written, last);
            &&& total_len(s) == total - written
            &&& forall|k: int| 0 <= k < s.len() ==> 1 <= (#[trigger] s[k]).0 <= size
            &&& forall|k: int| 0 <= k < s.len() && (#[trigger] s[k]).1 is Some ==> last < s[k].1->0 <= 90
            &&& reports_increase(s)
            &&& written < total ==> s.len() > 0 && s.last().1 == Some(90nat)
        }),
    decreases total - written,
{
    let s = upload_steps_from(total, size, written, last);
    if written < total {
        let len: nat = if size < total - written { size } else { (total - written) as nat };
        let w = written + len;
        let pct = upload_percent(w, total);
        lemma_percent_bounds(w, total);
        lemma_percent_bounds(written, total);
        lemma_div_is_ordered((written * 90) as int, (w * 90) as int, total as int);
        let next_last: nat = if pct > last { pct } else { last };
        lemma_steps_from(total, size, w, next_last);
        let rest = upload_steps_from(total, size, w, next_last);
        assert(s.drop_first() =~= rest);
        assert(s[0].0 == len);
        if w < total {
            assert(s.last() == rest.last());
        } else {
            assert(rest.len() == 0);
            assert(pct == 90);
            assert(upload_percent(written, total) < 90);
        }
        assert forall|k: int| 0 <= k < s.len() implies 1 <= (#[trigger] s[k]).0 <= size by {
            if k > 0 {
                assert(s[k] == rest[k - 1]);
            }
        }
        assert forall|k: int| 0 <= k < s.len() && (#[trigger] s[k]).1 is Some implies last < s[k].1->0 <= 90 by {
            if k > 0 {
                assert(s[k] == rest[k - 1]);
            }
        }
        assert forall|i: int, j: int|
            0 <= i < j < s.len() && (#[trigger] s[i]).1 is Some && (#[trigger] s[j]).1 is Some implies s[i].1->0 < s[j].1->0 by {
            assert(s[j] == rest[j - 1]);
            if i > 0 {
                assert(s[i] == rest[i - 1]);
            }
        }
    }
}

/// An upload of `total` bytes sends all of them, in chunks of at least one
/// byte and at most the chunk size; the percentages it reports grow strictly
/// and never pass 90; and a non-empty upload ends by reporting 90.
pub proof fn lemma_upload_plan(total: nat)
    ensures
        ({
            let s = upload_steps(total);
            &&& total_len(s) == total
            &&& forall|k: int| 0 <= k < s.len() ==> 1 <= (#[trigger] s[k]).0 <= chunk_size(total)
            &&& forall|k: int| 0 <= k < s.len() && (#[trigger] s[k]).1 is Some ==> s[k].1->0 <= 90
            &&& reports_increase(s)
            &&& total > 0 ==> s.len() > 0 && s.last().1 == Some(90nat)
        }),
{
    if total > 0 {
        assert(upload_percent(0, total) == 0);
        lemma_steps_from(total, chunk_size(total), 0, 0);
    } else {
        assert(upload_steps(total) =~= Seq::<(nat, Option<nat>)>::empty());
    }
}

/// The progress shown while the device installs: 90% plus a tenth of the
/// installer's own percentage.
pub open spec fn install_percent(pct: nat) -> nat {
    90 + pct * 10 / 100
}

/// The progress shown while the device installs (held at `u64::MAX` for
/// percentages no installer reports).
pub fn install_progress(pct: u64) -> (r: u64)
    ensures
        r == (if install_percent(pct as nat) > u64::MAX { u64::MAX as nat } else { install_percent(pct as nat) }),
{
    let v: u128 = 90 + (pct as u128) * 10 / 100;
    if v > u64::MAX as u128 {
        u64::MAX
    } else {
        v as u64
    }
}

/// While the installer reports 0% to 100%, the progress shown stays between
/// 90% and 100% and never goes back.
pub proof fn lemma_install_progress(a: nat, b: nat)
    requires
        a <= b <= 100,
    ensures
        90 <= install_percent(a) <= install_percent(b) <= 100,
{
    lemma_div_is_ordered((a * 10) as int, (b * 10) as int, 100);
    lemma_div_is_ordered((b * 10) as int, 1000, 100);
    assert(a * 10 <= b * 10) by (nonlinear_arith)
        requires a <= b;
    assert(b * 10 <= 1000) by (nonlinear_arith)
        requires b <= 100;
}

} // verus!
