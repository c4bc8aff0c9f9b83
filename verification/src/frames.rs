//! Building the two kinds of status frames: the variable-length scan list
//! and the fixed three-line connection status.

use vstd::prelude::*;
use vstd::string::StrSliceExecFns;
use vstd::string::StringExecFns;

use crate::associate::ScannedWifi;
use crate::associate::first_match;
use crate::associate::lemma_first_match;
use crate::render::Frame;
use crate::speed::RouterInfo;
use crate::speed::router_line;
use crate::speed::spec_router_line;
use crate::text::pad_right;
use crate::text::spec_pad_right;
use crate::text::str_eq;

verus! {

/// The scan list's header line.
pub open spec fn list_header() -> Seq<char> {
    spec_pad_right("SSID"@, 30) + " "@ + spec_pad_right("SIGNAL"@, 5)
}

/// One scan entry's line: its SSID and signal, in padded columns.
pub open spec fn list_entry_line(w: ScannedWifi) -> Seq<char> {
    spec_pad_right(w.ssid@, 30) + " "@ + spec_pad_right(w.signal@, 5)
}

fn two_columns(left: &str, right: &str) -> (r: String)
    ensures
        r@ == spec_pad_right(left@, 30) + " "@ + spec_pad_right(right@, 5),
{
    let mut r = pad_right(left, 30);
    r.append(" ");
    let p = pad_right(right, 5);
    r.append(p.as_str());
    r
}

/// The list-mode frame: one header line, then one line per scanned network,
/// so the line count follows the scan result's length.
pub fn list_frame(list: &Vec<ScannedWifi>) -> (f: Frame)
    ensures
        f@.len() == list@.len() + 1,
        f@[0] == list_header(),
        forall|i: int| 1 <= i <= list@.len() ==> f@[i] == list_entry_line(#[trigger] list@[i - 1]),
{
    let mut lines: Vec<String> = Vec::new();
    lines.push(two_columns("SSID", "SIGNAL"));
    let mut i: usize = 0;
    while i < list.len()
        invariant
            i <= list@.len(),
            lines@.len() == i + 1,
            lines@[0]@ == list_header(),
            forall|j: int| 1 <= j <= i ==> lines@[j]@ == list_entry_line(#[trigger] list@[j - 1]),
        decreases list@.len() - i,
    {
        lines.push(two_columns(list[i].ssid.as_str(), list[i].signal.as_str()));
        i = i + 1;
    }
    let f = Frame { lines };
    proof {
        assert(forall|j: int| 0 <= j < f@.len() ==> f@[j] == f.lines@[j]@);
    }
    f
}

/// The signal to show for the connected network: the signal of the first
/// scan entry whose SSID is `ssid`, or the previously shown value when the
/// scan does not list that network.
pub open spec fn spec_signal_of(list: Seq<ScannedWifi>, ssid: Seq<char>, prev: Seq<char>) -> Seq<
    char,
> {
    if first_match(list, ssid) < list.len() {
        list[first_match(list, ssid)].signal@
    } else {
        prev
    }
}

/// Picks the signal to display this frame, keeping the previous value when
/// the connected network is missing from the scan.
pub fn signal_of(list: &Vec<ScannedWifi>, ssid: &str, prev: &str) -> (r: String)
    ensures
        r@ == spec_signal_of(list@, ssid@, prev@),
{
    let mut i: usize = 0;
    proof {
        lemma_first_match(list@, ssid@);
    }
    while i < list.len()
        invariant
            i <= list@.len(),
            forall|j: int| 0 <= j < i ==> (#[trigger] list@[j]).ssid@ != ssid@,
            forall|j: int|
                0 <= j < first_match(list@, ssid@) ==> (#[trigger] list@[j]).ssid@ != ssid@,
            first_match(list@, ssid@) < list@.len() ==> list@[first_match(list@, ssid@)].ssid@
                == ssid@,
            0 <= first_match(list@, ssid@) <= list@.len(),
        decreases list@.len() - i,
    {
        if str_eq(list[i].ssid.as_str(), ssid) {
            assert(i as int == first_match(list@, ssid@)) by {
                if i < first_match(list@, ssid@) {
                    assert(false);
                }
                if i > first_match(list@, ssid@) {
                    assert(false);
                }
            }
            return list[i].signal.clone();
        }
        i = i + 1;
    }
    prev.to_owned()
}

/// The SSID status line.
pub open spec fn ssid_line(ssid: Seq<char>) -> Seq<char> {
    "    SSID: "@ + ssid
}

/// The signal status line.
pub open spec fn signal_line(signal: Seq<char>) -> Seq<char> {
    "  Signal: "@ + signal
}

/// The speed status line.
pub open spec fn speed_line(up: nat, down: nat) -> Seq<char> {
    "   Speed: "@ + spec_router_line(up, down)
}

/// The status-mode frame: always the same three labelled lines — SSID,
/// signal, and throughput — whatever their current values.
pub fn status_frame(ssid: &str, signal: &str, info: &RouterInfo) -> (f: Frame)
    ensures
        f@.len() == 3,
        f@[0] == ssid_line(ssid@),
        f@[1] == signal_line(signal@),
        f@[2] == speed_line(info.upspeed as nat, info.downspeed as nat),
{
    let mut lines: Vec<String> = Vec::new();
    let mut l0 = String::from_str("    SSID: ");
    l0.append(ssid);
    lines.push(l0);
    let mut l1 = String::from_str("  Signal: ");
    l1.append(signal);
    lines.push(l1);
    let mut l2 = String::from_str("   Speed: ");
    let rl = router_line(info);
    l2.append(rl.as_str());
    lines.push(l2);
    let f = Frame { lines };
    proof {
        assert(f@.len() == 3);
        assert(f@[0] == f.lines@[0]@);
        assert(f@[1] == f.lines@[1]@);
        assert(f@[2] == f.lines@[2]@);
    }
    f
}

/// What the connected-SSID answer means for display: the device's `NULL`
/// marker stands for "not connected".
pub open spec fn spec_normalize_ssid(raw: Seq<char>) -> Option<Seq<char>> {
    if raw == "NULL"@ {
        None
    } else {
        Some(raw)
    }
}

/// Reads the device's connected-SSID answer, mapping its `NULL` marker to
/// `None`.
pub fn normalize_ssid(raw: &str) -> (r: Option<String>)
    ensures
        match r {
            Some(s) => spec_normalize_ssid(raw@) == Some(s@),
            None => spec_normalize_ssid(raw@) is None,
        },
{
    if str_eq(raw, "NULL") {
        None
    } else {
        Some(raw.to_owned())
    }
}

/// The SSID to display: the connected one, or the caller's placeholder when
/// the device reports none. Whether a missing connection is instead treated
/// as an error is the caller's choice, made before calling this.
pub fn display_ssid(ssid: &Option<String>, placeholder: &str) -> (r: String)
    ensures
        match ssid {
            Some(s) => r@ == s@,
            None => r@ == placeholder@,
        },
{
    match ssid {
        Some(s) => s.clone(),
        None => placeholder.to_owned(),
    }
}

} // verus!
