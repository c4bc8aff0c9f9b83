//! Joining another network as a repeater: scan entries, the security
//! descriptor split, the association request, and the bounded-retry state
//! machine that keeps scanning until the target network appears.

use vstd::prelude::*;
use vstd::string::StrSliceExecFns;
use vstd::string::StringExecFns;

use crate::error::ClientError;
use crate::text::find_char;
use crate::text::first_at;
use crate::text::lemma_first_at;
use crate::text::str_eq;

verus! {

/// One network observed in a wireless scan.
pub struct ScannedWifi {
    pub channel: String,
    pub ssid: String,
    pub bssid: String,
    pub security: String,
    pub signal: String,
    pub ext_ch: String,
}

/// The device's own uplink wireless identity, kept as the secondary network
/// of an association request.
pub struct WlanInfo {
    pub wlanssid: String,
    pub wlanpswmode: String,
    pub wlanpswencry: String,
    pub wlanpsw: Option<String>,
}

/// Everything the device needs to associate with a scanned network.
pub struct AssociationRequest {
    pub channel: String,
    pub bssid: String,
    pub ssid: String,
    pub security: String,
    pub arithmetic: String,
    pub key: String,
    pub ext_ch: String,
    pub wlan2ssid: String,
    pub wlan2psw: String,
    pub routepwd: String,
}

/// The security mode: everything before the first `/` of the descriptor, or
/// the whole descriptor when it has no `/`.
pub open spec fn sec_mode(s: Seq<char>) -> Seq<char> {
    s.take(first_at(s, '/'))
}

/// The cipher: everything after the first `/` of the descriptor, or the
/// marker `undefined` when it has no `/`.
pub open spec fn sec_cipher(s: Seq<char>) -> Seq<char> {
    if first_at(s, '/') < s.len() {
        s.skip(first_at(s, '/') + 1)
    } else {
        "undefined"@
    }
}

/// Splits a security descriptor into mode and cipher at its first `/`.
pub fn split_security(security: &str) -> (r: (String, String))
    ensures
        r.0@ == sec_mode(security@),
        r.1@ == sec_cipher(security@),
{
    let n = security.unicode_len();
    let i = find_char(security, '/');
    proof {
        lemma_first_at(security@, '/');
    }
    let mode = security.substring_char(0, i).to_owned();
    proof {
        assert(security@.subrange(0, i as int) =~= security@.take(i as int));
    }
    let cipher = if i < n {
        let c = security.substring_char(i + 1, n).to_owned();
        proof {
            assert(security@.subrange(i + 1, n as int) =~= security@.skip(i + 1));
        }
        c
    } else {
        String::from_str("undefined")
    };
    (mode, cipher)
}

/// `req` is the association request derived from scan entry `wifi`, the
/// device's own uplink identity `wlan`, the operator's pre-shared key, and
/// the device password.
pub open spec fn request_matches(
    req: AssociationRequest,
    wifi: ScannedWifi,
    wlan: WlanInfo,
    key: Seq<char>,
    routepwd: Seq<char>,
) -> bool {
    &&& req.channel@ == wifi.channel@
    &&& req.bssid@ == wifi.bssid@
    &&& req.ssid@ == wifi.ssid@
    &&& req.security@ == sec_mode(wifi.security@)
    &&& req.arithmetic@ == sec_cipher(wifi.security@)
    &&& req.key@ == key
    &&& req.ext_ch@ == wifi.ext_ch@
    &&& req.wlan2ssid@ == wlan.wlanssid@
    &&& req.wlan2psw@ == match wlan.wlanpsw {
        Some(p) => p@,
        None => "123456789"@,
    }
    &&& req.routepwd@ == routepwd
}

/// Builds the association request for a matched scan entry, defaulting the
/// secondary-network key when the device reports none.
pub fn build_request(wifi: &ScannedWifi, wlan: &WlanInfo, key: &str, routepwd: &str) -> (r:
    AssociationRequest)
    ensures
        request_matches(r, *wifi, *wlan, key@, routepwd@),
{
    let (security, arithmetic) = split_security(wifi.security.as_str());
    let wlan2psw = match &wlan.wlanpsw {
        Some(p) => p.clone(),
        None => String::from_str("123456789"),
    };
    AssociationRequest {
        channel: wifi.channel.clone(),
        bssid: wifi.bssid.clone(),
        ssid: wifi.ssid.clone(),
        security,
        arithmetic,
        key: key.to_owned(),
        ext_ch: wifi.ext_ch.clone(),
        wlan2ssid: wlan.wlanssid.clone(),
        wlan2psw,
        routepwd: routepwd.to_owned(),
    }
}

/// Index of the first entry whose SSID is exactly `t`, or the list's length
/// when none matches.
pub open spec fn first_match(list: Seq<ScannedWifi>, t: Seq<char>) -> int
    decreases list.len(),
{
    if list.len() == 0 {
        0
    } else if list[0].ssid@ == t {
        0
    } else {
        1 + first_match(list.drop_first(), t)
    }
}

/// Some entry of the list has SSID exactly `t`.
pub open spec fn match_in(list: Seq<ScannedWifi>, t: Seq<char>) -> bool {
    exists|i: int| 0 <= i < list.len() && (#[trigger] list[i]).ssid@ == t
}

pub proof fn lemma_first_match(list: Seq<ScannedWifi>, t: Seq<char>)
    ensures
        0 <= first_match(list, t) <= list.len(),
        forall|j: int| 0 <= j < first_match(list, t) ==> (#[trigger] list[j]).ssid@ != t,
        first_match(list, t) < list.len() ==> list[first_match(list, t)].ssid@ == t,
        (first_match(list, t) < list.len()) == match_in(list, t),
    decreases list.len(),
{
    if list.len() == 0 {
    } else if list[0].ssid@ == t {
    } else {
        lemma_first_match(list.drop_first(), t);
        assert forall|j: int| 0 <= j < first_match(list, t) implies (#[trigger] list[j]).ssid@
            != t by {
            if j > 0 {
                assert(list.drop_first()[j - 1].ssid@ != t);
            }
        }
        if match_in(list.drop_first(), t) {
            let i = choose|i: int|
                0 <= i < list.drop_first().len() && (#[trigger] list.drop_first()[i]).ssid@ == t;
            assert(list[i + 1].ssid@ == t);
        }
        if match_in(list, t) {
            let i = choose|i: int| 0 <= i < list.len() && (#[trigger] list[i]).ssid@ == t;
            assert(i > 0);
            assert(list.drop_first()[i - 1].ssid@ == t);
        }
    }
}

proof fn lemma_first_match_unique(list: Seq<ScannedWifi>, t: Seq<char>, i: int)
    requires
        0 <= i <= list.len(),
        forall|j: int| 0 <= j < i ==> (#[trigger] list[j]).ssid@ != t,
        i < list.len() ==> list[i].ssid@ == t,
    ensures
        first_match(list, t) == i,
    decreases list.len(),
{
    if list.len() == 0 {
    } else if list[0].ssid@ == t {
        assert(i == 0);
    } else {
        assert(i > 0);
        assert forall|j: int| 0 <= j < i - 1 implies (#[trigger] list.drop_first()[j]).ssid@
            != t by {
            assert(list[j + 1].ssid@ != t);
        }
        lemma_first_match_unique(list.drop_first(), t, i - 1);
    }
}

/// Finds the first scan entry whose SSID is exactly `ssid`.
pub fn find_target(list: &Vec<ScannedWifi>, ssid: &str) -> (r: Option<usize>)
    ensures
        match r {
            Some(i) => i as int == first_match(list@, ssid@) && first_match(list@, ssid@)
                < list@.len(),
            None => first_match(list@, ssid@) == list@.len(),
        },
{
    proof {
        lemma_first_match(list@, ssid@);
    }
    let mut i: usize = 0;
    while i < list.len()
        invariant
            i <= list@.len(),
            forall|j: int| 0 <= j < i ==> (#[trigger] list@[j]).ssid@ != ssid@,
        decreases list@.len() - i,
    {
        if str_eq(list[i].ssid.as_str(), ssid) {
            proof {
                lemma_first_match_unique(list@, ssid@, i as int);
            }
            return Some(i);
        }
        i = i + 1;
    }
    proof {
        lemma_first_match_unique(list@, ssid@, list@.len() as int);
    }
    None
}

/// What the association state machine does with one scan result.
pub enum ScanDecision {
    /// The target appeared: submit this request.
    Associate(AssociationRequest),
    /// No entry matched; attempts remain, so scan again.
    RetryScan,
    /// No entry matched and the attempt budget is spent.
    GiveUp,
}

/// The Searching state of the association machine: the target identity and
/// how many more scans it is willing to look at.
pub struct AssociationRetrier {
    pub target_ssid: String,
    pub key: String,
    pub attempts_left: u64,
}

impl AssociationRetrier {
    /// Starts searching for `target_ssid`, giving up after `max_attempts`
    /// scans without a match.
    pub fn new(target_ssid: String, key: String, max_attempts: u64) -> (s: AssociationRetrier)
        ensures
            s.target_ssid == target_ssid,
            s.key == key,
            s.attempts_left == max_attempts,
    {
        AssociationRetrier { target_ssid, key, attempts_left: max_attempts }
    }

    /// One Searching-state transition. A scan containing the target moves to
    /// Found: the decision carries the request built from the first matching
    /// entry. Otherwise one attempt is consumed and the machine either keeps
    /// searching or gives up.
    pub fn on_scan(&mut self, list: &Vec<ScannedWifi>, wlan: &WlanInfo, routepwd: &str) -> (r:
        ScanDecision)
        requires
            old(self).attempts_left > 0,
        ensures
            final(self).target_ssid == old(self).target_ssid,
            final(self).key == old(self).key,
            ({
                let t = old(self).target_ssid@;
                let m = first_match(list@, t);
                if m < list@.len() {
                    &&& final(self).attempts_left == old(self).attempts_left
                    &&& match r {
                        ScanDecision::Associate(req) => request_matches(
                            req,
                            list@[m],
                            *wlan,
                            old(self).key@,
                            routepwd@,
                        ),
                        _ => false,
                    }
                } else {
                    &&& final(self).attempts_left == old(self).attempts_left - 1
                    &&& if old(self).attempts_left > 1 {
                        r is RetryScan
                    } else {
                        r is GiveUp
                    }
                }
            }),
    {
        match find_target(list, self.target_ssid.as_str()) {
            Some(i) => {
                proof {
                    lemma_first_match(list@, self.target_ssid@);
                }
                ScanDecision::Associate(
                    build_request(&list[i], wlan, self.key.as_str(), routepwd),
                )
            },
            None => {
                proof {
                    lemma_first_match(list@, self.target_ssid@);
                }
                self.attempts_left = self.attempts_left - 1;
                if self.attempts_left > 0 {
                    ScanDecision::RetryScan
                } else {
                    ScanDecision::GiveUp
                }
            },
        }
    }
}

/// A scan outcome settles the search: either the scan itself failed, or it
/// contains an entry with the target SSID.
pub open spec fn scan_decides(s: Result<Vec<ScannedWifi>, ClientError>, t: Seq<char>) -> bool {
    match s {
        Result::Err(_) => true,
        Result::Ok(list) => match_in(list@, t),
    }
}

/// Index of the first scan outcome that settles the search, or the number of
/// scans when none does.
pub open spec fn first_deciding(
    scans: Seq<Result<Vec<ScannedWifi>, ClientError>>,
    t: Seq<char>,
) -> int
    decreases scans.len(),
{
    if scans.len() == 0 {
        0
    } else if scan_decides(scans[0], t) {
        0
    } else {
        1 + first_deciding(scans.drop_first(), t)
    }
}

pub proof fn lemma_first_deciding(scans: Seq<Result<Vec<ScannedWifi>, ClientError>>, t: Seq<char>)
    ensures
        0 <= first_deciding(scans, t) <= scans.len(),
        forall|j: int| 0 <= j < first_deciding(scans, t) ==> !scan_decides(#[trigger] scans[j], t),
        first_deciding(scans, t) < scans.len() ==> scan_decides(
            scans[first_deciding(scans, t)],
            t,
        ),
    decreases scans.len(),
{
    if scans.len() == 0 {
    } else if scan_decides(scans[0], t) {
    } else {
        lemma_first_deciding(scans.drop_first(), t);
        assert forall|j: int| 0 <= j < first_deciding(scans, t) implies !scan_decides(
            #[trigger] scans[j],
            t,
        ) by {
            if j > 0 {
                assert(!scan_decides(scans.drop_first()[j - 1], t));
            }
        }
    }
}

proof fn lemma_first_deciding_unique(
    scans: Seq<Result<Vec<ScannedWifi>, ClientError>>,
    t: Seq<char>,
    i: int,
)
    requires
        0 <= i <= scans.len(),
        forall|j: int| 0 <= j < i ==> !scan_decides(#[trigger] scans[j], t),
        i < scans.len() ==> scan_decides(scans[i], t),
    ensures
        first_deciding(scans, t) == i,
    decreases scans.len(),
{
    if scans.len() == 0 {
    } else if scan_decides(scans[0], t) {
        assert(i == 0);
    } else {
        assert(i > 0);
        assert forall|j: int| 0 <= j < i - 1 implies !scan_decides(
            #[trigger] scans.drop_first()[j],
            t,
        ) by {
            assert(!scan_decides(scans[j + 1], t));
        }
        lemma_first_deciding_unique(scans.drop_first(), t, i - 1);
    }
}

/// While no scan result settles the search — no transport failure and no
/// entry carrying the target SSID — the machine never leaves Searching, so
/// nothing is ever submitted for association, however many scans arrive.
pub proof fn lemma_searching_never_associates(
    scans: Seq<Result<Vec<ScannedWifi>, ClientError>>,
    t: Seq<char>,
)
    requires
        forall|k: int| 0 <= k < scans.len() ==> !scan_decides(#[trigger] scans[k], t),
    ensures
        first_deciding(scans, t) == scans.len(),
{
    lemma_first_deciding_unique(scans, t, scans.len() as int);
}

/// Runs the whole search over scan outcomes taken in order: the first failed
/// scan aborts with that failure; the first scan containing the target yields
/// the request built from its first matching entry; and once `max_attempts`
/// scans (or all of them) have passed without either, the target is reported
/// as not found.
pub fn run_retrier(
    target_ssid: &str,
    key: &str,
    routepwd: &str,
    wlan: &WlanInfo,
    scans: &Vec<Result<Vec<ScannedWifi>, ClientError>>,
    max_attempts: u64,
) -> (r: Result<AssociationRequest, ClientError>)
    ensures
        ({
            let t = target_ssid@;
            let k = first_deciding(scans@, t);
            if k < scans@.len() && k < max_attempts {
                match scans@[k] {
                    Result::Err(e) => r == Result::<AssociationRequest, ClientError>::Err(e),
                    Result::Ok(list) => match r {
                        Result::Ok(req) => request_matches(
                            req,
                            list@[first_match(list@, t)],
                            *wlan,
                            key@,
                            routepwd@,
                        ),
                        Result::Err(_) => false,
                    },
                }
            } else {
                r == Result::<AssociationRequest, ClientError>::Err(ClientError::NotFound)
            }
        }),
{
    let ghost t = target_ssid@;
    let mut i: usize = 0;
    while i < scans.len() && (i as u64) < max_attempts
        invariant
            i <= scans@.len(),
            i as u64 <= max_attempts,
            t == target_ssid@,
            forall|j: int| 0 <= j < i ==> !scan_decides(#[trigger] scans@[j], t),
        decreases scans@.len() - i,
    {
        match &scans[i] {
            Result::Err(e) => {
                proof {
                    lemma_first_deciding_unique(scans@, t, i as int);
                }
                return Result::Err(e.duplicate());
            },
            Result::Ok(list) => {
                match find_target(list, target_ssid) {
                    Some(idx) => {
                        proof {
                            lemma_first_match(list@, t);
                            assert(scan_decides(scans@[i as int], t));
                            lemma_first_deciding_unique(scans@, t, i as int);
                        }
                        return Result::Ok(build_request(&list[idx], wlan, key, routepwd));
                    },
                    None => {
                        proof {
                            lemma_first_match(list@, t);
                            assert(!scan_decides(scans@[i as int], t));
                        }
                    },
                }
            },
        }
        i = i + 1;
    }
    proof {
        lemma_first_deciding(scans@, t);
        let k = first_deciding(scans@, t);
        if k < i {
            assert(!scan_decides(scans@[k], t));
            assert(false);
        }
    }
    Result::Err(ClientError::NotFound)
}

} // verus!
