use vstd::prelude::*;

use crate::request::bytes_eq;
use crate::text::{copy_range, find_first, parse_uint, parse_uint_bytes, segments, split, split_once};

verus! {

broadcast use vstd::std_specs::hash::group_hash_axioms;

/// A hexadecimal digit of either case.
pub open spec fn is_hex_any(c: u8) -> bool {
    (48 <= c <= 57) || (97 <= c <= 102) || (65 <= c <= 70)
}

pub open spec fn hex_any_value(c: u8) -> int {
    if 48 <= c <= 57 {
        c - 48
    } else if 97 <= c <= 102 {
        c - 87
    } else {
        c - 55
    }
}

/// Value of a string of hexadecimal digits.
pub open spec fn hex_value(s: Seq<u8>) -> nat
    decreases s.len(),
{
    if s.len() == 0 {
        0
    } else {
        (hex_value(s.drop_last()) * 16 + hex_any_value(s.last())) as nat
    }
}

/// Every byte is a hexadecimal digit of either case.
pub open spec fn all_hex_any(d: Seq<u8>) -> bool {
    forall|i: int| 0 <= i < d.len() ==> is_hex_any(#[trigger] d[i])
}

/// What reading `s` as a hexadecimal `u16` gives: an optional `+`, then one or more digits
/// of either case.
pub open spec fn parse_hex_u16(s: Seq<u8>) -> Option<u16> {
    let d = if s.len() > 0 && s[0] == 43 { s.drop_first() } else { s };
    if d.len() > 0 && all_hex_any(d) && hex_value(d) <= 65535 {
        Some(hex_value(d) as u16)
    } else {
        None
    }
}

/// `s` without its trailing `;`s.
pub open spec fn trim_semicolons(s: Seq<u8>) -> Seq<u8>
    decreases s.len(),
{
    if s.len() > 0 && s.last() == 59 {
        trim_semicolons(s.drop_last())
    } else {
        s
    }
}

/// The static ranges a `static_ranges` value lists; `None` where one does not parse.
pub open spec fn parse_ranges(s: Seq<u8>) -> Option<Seq<u16>> {
    let p = segments(trim_semicolons(s), 59);
    if forall|i: int| 0 <= i < p.len() ==> #[trigger] parse_hex_u16(p[i]) is Some {
        Some(Seq::new(p.len(), |i: int| parse_hex_u16(p[i])->0))
    } else {
        None
    }
}

proof fn lemma_hex_value_prefix(s: Seq<u8>, i: int)
    requires
        0 <= i <= s.len(),
        forall|k: int| 0 <= k < s.len() ==> is_hex_any(#[trigger] s[k]),
    ensures
        hex_value(s.subrange(0, i)) <= hex_value(s),
    decreases s.len() - i,
{
    if i < s.len() {
        lemma_hex_value_prefix(s, i + 1);
        assert(s.subrange(0, i + 1).drop_last() =~= s.subrange(0, i));
    } else {
        assert(s.subrange(0, i) =~= s);
    }
}

/// Reads a hexadecimal `u16` as `u16::from_str_radix(s, 16)` does.
pub fn hex_u16(s: &[u8]) -> (r: Option<u16>)
    ensures
        r == parse_hex_u16(s@),
{
    let start: usize = if s.len() > 0 && s[0] == 43 { 1 } else { 0 };
    let ghost d = if s@.len() > 0 && s@[0] == 43 { s@.drop_first() } else { s@ };
    assert(d =~= s@.subrange(start as int, s@.len() as int));
    if start == s.len() {
        return None;
    }
    let mut v: u32 = 0;
    let mut i: usize = start;
    while i < s.len()
        invariant
            start <= i <= s@.len(),
            start < s@.len(),
            d =~= s@.subrange(start as int, s@.len() as int),
            d == (if s@.len() > 0 && s@[0] == 43 { s@.drop_first() } else { s@ }),
            forall|k: int| start <= k < i ==> is_hex_any(#[trigger] s@[k]),
            v as nat == hex_value(s@.subrange(start as int, i as int)),
            v <= 65535,
        decreases s@.len() - i,
    {
        let c = s[i];
        let digit: u32 = if 48 <= c && c <= 57 {
            (c - 48) as u32
        } else if 97 <= c && c <= 102 {
            (c - 87) as u32
        } else if 65 <= c && c <= 70 {
            (c - 55) as u32
        } else {
            assert(d[i - start] == c);
            assert(!is_hex_any(d[i - start]));
            assert(parse_hex_u16(s@) is None);
            return None;
        };
        let ghost pre = s@.subrange(start as int, i as int);
        let ghost next = s@.subrange(start as int, i + 1);
        assert(next.drop_last() =~= pre);
        assert(next.last() == c);
        assert(digit as int == hex_any_value(c));
        assert(hex_value(next) == hex_value(pre) * 16 + hex_any_value(c));
        let nv: u32 = v * 16 + digit;
        if nv > 65535 {
            proof {
                assert(hex_value(next) > 65535);
                if forall|k: int| 0 <= k < d.len() ==> is_hex_any(#[trigger] d[k]) {
                    lemma_hex_value_prefix(d, i + 1 - start);
                    assert(d.subrange(0, i + 1 - start) =~= next);
                }
            }
            assert(parse_hex_u16(s@) is None);
            return None;
        }
        v = nv;
        i = i + 1;
    }
    assert(forall|k: int| 0 <= k < d.len() ==> is_hex_any(#[trigger] d[k])) by {
        assert forall|k: int| 0 <= k < d.len() implies is_hex_any(#[trigger] d[k]) by {
            assert(d[k] == s@[start + k]);
        }
    }
    assert(s@.subrange(start as int, s@.len() as int) =~= d);
    Some(v as u16)
}

/// The static ranges a `static_ranges` value lists; `None` where one does not parse.
pub fn ranges_from(s: &[u8]) -> (r: Option<Vec<u16>>)
    ensures
        r matches Some(v) ==> parse_ranges(s@) == Some(v@),
        r is None ==> parse_ranges(s@) is None,
{
    let mut end: usize = s.len();
    assert(s@.subrange(0, end as int) =~= s@);
    while end > 0 && s[end - 1] == 59
        invariant
            end <= s@.len(),
            trim_semicolons(s@) == trim_semicolons(s@.subrange(0, end as int)),
        decreases end,
    {
        assert(s@.subrange(0, end as int).drop_last() =~= s@.subrange(0, end - 1));
        end = end - 1;
    }
    let trimmed = copy_range(s, 0, end);
    assert(trim_semicolons(s@) == trimmed@) by {
        if end > 0 {
            assert(trimmed@.last() == s@[end - 1]);
        }
    }
    let parts = split(trimmed.as_slice(), 59);
    let ghost p = parts@.map_values(|v: Vec<u8>| v@);
    let mut out: Vec<u16> = Vec::new();
    let mut i: usize = 0;
    while i < parts.len()
        invariant
            i <= parts@.len(),
            p == parts@.map_values(|v: Vec<u8>| v@),
            p == segments(trim_semicolons(s@), 59),
            out@.len() == i,
            forall|k: int| 0 <= k < i ==> parse_hex_u16(#[trigger] p[k]) == Some(out@[k]),
        decreases parts@.len() - i,
    {
        match hex_u16(parts[i].as_slice()) {
            Some(n) => {
                out.push(n);
            },
            None => {
                assert(parse_hex_u16(p[i as int]) is None);
                return None;
            },
        }
        i = i + 1;
    }
    assert(out@ =~= Seq::new(p.len(), |k: int| parse_hex_u16(p[k])->0));
    Some(out)
}

/// How the dispatcher's settings change the speed limit.
#[derive(Clone, Copy, Debug, PartialEq, Eq, Structural)]
pub enum SpeedLimit {
    Unchanged,
    Unlimited,
    /// A limit in KiB per second; never zero.
    KibPerSec(u32),
}

/// What a settings response changes.
pub struct SettingsUpdate {
    pub static_ranges: Option<Vec<u16>>,
    pub speed_limit: SpeedLimit,
    pub max_size: Option<u64>,
}

/// [`SettingsUpdate`] in terms of sequences.
pub struct SettingsView {
    pub static_ranges: Option<Seq<u16>>,
    pub speed_limit: SpeedLimit,
    pub max_size: Option<u64>,
}

impl View for SettingsUpdate {
    type V = SettingsView;

    open spec fn view(&self) -> SettingsView {
        SettingsView {
            static_ranges: match self.static_ranges {
                Some(v) => Some(v@),
                None => None,
            },
            speed_limit: self.speed_limit,
            max_size: self.max_size,
        }
    }
}

pub open spec fn lit_static_ranges() -> Seq<u8> {
    seq![115u8, 116, 97, 116, 105, 99, 95, 114, 97, 110, 103, 101, 115]
}

pub open spec fn lit_disable_bwm() -> Seq<u8> {
    seq![100u8, 105, 115, 97, 98, 108, 101, 95, 98, 119, 109]
}

pub open spec fn lit_throttle_bytes() -> Seq<u8> {
    seq![116u8, 104, 114, 111, 116, 116, 108, 101, 95, 98, 121, 116, 101, 115]
}

pub open spec fn lit_diskremaining_bytes() -> Seq<u8> {
    seq![
        100u8, 105, 115, 107, 114, 101, 109, 97, 105, 110, 105, 110, 103, 95, 98, 121, 116, 101,
        115,
    ]
}

pub open spec fn lit_true() -> Seq<u8> {
    seq![116u8, 114, 117, 101]
}

/// The effect of one settings line `key=value` on `st`; `None` where a value that is read
/// does not parse. Limits set locally are left alone.
pub open spec fn settings_step(
    st: SettingsView,
    line: Seq<u8>,
    local_speed: bool,
    local_max: bool,
) -> Option<SettingsView> {
    match split_once(line, 61) {
        None => Some(st),
        Some((k, v)) => if k == lit_static_ranges() {
            match parse_ranges(v) {
                Some(r) => Some(SettingsView { static_ranges: Some(r), ..st }),
                None => None,
            }
        } else if k == lit_disable_bwm() {
            if !local_speed && v == lit_true() {
                Some(SettingsView { speed_limit: SpeedLimit::Unlimited, ..st })
            } else {
                Some(st)
            }
        } else if k == lit_throttle_bytes() {
            if !local_speed && st.speed_limit == SpeedLimit::Unchanged {
                match parse_uint(v, u32::MAX as nat) {
                    Some(n) => Some(
                        SettingsView {
                            speed_limit: if n == 0 {
                                SpeedLimit::Unchanged
                            } else {
                                SpeedLimit::KibPerSec(n as u32)
                            },
                            ..st
                        },
                    ),
                    None => None,
                }
            } else {
                Some(st)
            }
        } else if k == lit_diskremaining_bytes() {
            if !local_max {
                match parse_uint(v, u64::MAX as nat) {
                    Some(n) => Some(SettingsView { max_size: Some(n as u64), ..st }),
                    None => None,
                }
            } else {
                Some(st)
            }
        } else {
            Some(st)
        },
    }
}

/// The effect of the lines in order, starting from no change.
pub open spec fn settings_of(lines: Seq<Seq<u8>>, local_speed: bool, local_max: bool) -> Option<
    SettingsView,
>
    decreases lines.len(),
{
    if lines.len() == 0 {
        Some(SettingsView { static_ranges: None, speed_limit: SpeedLimit::Unchanged, max_size: None })
    } else {
        match settings_of(lines.drop_last(), local_speed, local_max) {
            Some(st) => settings_step(st, lines.last(), local_speed, local_max),
            None => None,
        }
    }
}

fn step(
    st: SettingsUpdate,
    line: &[u8],
    local_speed: bool,
    local_max: bool,
) -> (r: Option<SettingsUpdate>)
    ensures
        match settings_step(st@, line@, local_speed, local_max) {
            Some(v) => r matches Some(u) && u@ == v,
            None => r is None,
        },
{
    let eq = match find_first(line, 61) {
        Some(i) => i,
        None => return Some(st),
    };
    let n = line.len();
    let k = copy_range(line, 0, eq);
    let v = copy_range(line, eq + 1, n);
    let l1 = vec![115u8, 116, 97, 116, 105, 99, 95, 114, 97, 110, 103, 101, 115];
    assert(l1@ =~= lit_static_ranges());
    let l2 = vec![100u8, 105, 115, 97, 98, 108, 101, 95, 98, 119, 109];
    assert(l2@ =~= lit_disable_bwm());
    let l3 = vec![116u8, 104, 114, 111, 116, 116, 108, 101, 95, 98, 121, 116, 101, 115];
    assert(l3@ =~= lit_throttle_bytes());
    let l4 = vec![
        100u8, 105, 115, 107, 114, 101, 109, 97, 105, 110, 105, 110, 103, 95, 98, 121, 116, 101,
        115,
    ];
    assert(l4@ =~= lit_diskremaining_bytes());
    let t = vec![116u8, 114, 117, 101];
    assert(t@ =~= lit_true());
    if bytes_eq(k.as_slice(), l1.as_slice()) {
        match ranges_from(v.as_slice()) {
            Some(r) => Some(SettingsUpdate { static_ranges: Some(r), ..st }),
            None => None,
        }
    } else if bytes_eq(k.as_slice(), l2.as_slice()) {
        if !local_speed && bytes_eq(v.as_slice(), t.as_slice()) {
            Some(SettingsUpdate { speed_limit: SpeedLimit::Unlimited, ..st })
        } else {
            Some(st)
        }
    } else if bytes_eq(k.as_slice(), l3.as_slice()) {
        if !local_speed && st.speed_limit == SpeedLimit::Unchanged {
            match parse_uint_bytes(v.as_slice(), 4294967295) {
                Some(n) => {
                    let speed_limit = if n == 0 {
                        SpeedLimit::Unchanged
                    } else {
                        SpeedLimit::KibPerSec(n as u32)
                    };
                    Some(SettingsUpdate { speed_limit, ..st })
                },
                None => None,
            }
        } else {
            Some(st)
        }
    } else if bytes_eq(k.as_slice(), l4.as_slice()) {
        if !local_max {
            match parse_uint_bytes(v.as_slice(), u64::MAX) {
                Some(n) => Some(SettingsUpdate { max_size: Some(n), ..st }),
                None => None,
            }
        } else {
            Some(st)
        }
    } else {
        Some(st)
    }
}

/// Reads the `key=value` lines of a settings response, in order. `local_speed` and
/// `local_max` say that the speed limit and the cache size were set locally and stay.
pub fn parse_settings(lines: &Vec<Vec<u8>>, local_speed: bool, local_max: bool) -> (r: Option<
    SettingsUpdate,
>)
    ensures
        match settings_of(lines@.map_values(|v: Vec<u8>| v@), local_speed, local_max) {
            Some(v) => r matches Some(u) && u@ == v,
            None => r is None,
        },
{
    let ghost all = lines@.map_values(|v: Vec<u8>| v@);
    let mut st = SettingsUpdate { static_ranges: None, speed_limit: SpeedLimit::Unchanged, max_size: None };
    let mut i: usize = 0;
    assert(all.subrange(0, 0) =~= Seq::<Seq<u8>>::empty());
    while i < lines.len()
        invariant
            i <= lines@.len(),
            all == lines@.map_values(|v: Vec<u8>| v@),
            settings_of(all.subrange(0, i as int), local_speed, local_max) == Some(st@),
        decreases lines@.len() - i,
    {
        let ghost next = all.subrange(0, i + 1);
        assert(next.drop_last() =~= all.subrange(0, i as int));
        assert(next.last() == lines@[i as int]@);
        match step(st, lines[i].as_slice(), local_speed, local_max) {
            Some(u) => {
                st = u;
            },
            None => {
                proof {
                    lemma_settings_fail_stays(all, i as int + 1, local_speed, local_max);
                }
                return None;
            },
        }
        i = i + 1;
    }
    assert(all.subrange(0, lines@.len() as int) =~= all);
    Some(st)
}

proof fn lemma_settings_fail_stays(all: Seq<Seq<u8>>, i: int, local_speed: bool, local_max: bool)
    requires
        0 <= i <= all.len(),
        settings_of(all.subrange(0, i), local_speed, local_max) is None,
    ensures
        settings_of(all, local_speed, local_max) is None,
    decreases all.len() - i,
{
    if i < all.len() {
        assert(all.subrange(0, i + 1).drop_last() =~= all.subrange(0, i));
        lemma_settings_fail_stays(all, i + 1, local_speed, local_max);
    } else {
        assert(all.subrange(0, i) =~= all);
    }
}

/// The static ranges that this node currently serves.
pub struct MutContext {
    pub static_range: std::collections::HashSet<u16>,
}

impl MutContext {
    pub fn new() -> (r: MutContext)
        ensures
            r.static_range@ == Set::<u16>::empty(),
    {
        MutContext { static_range: std::collections::HashSet::new() }
    }

    /// Whether `range` is served.
    pub fn in_static_range(&self, range: u16) -> (r: bool)
        ensures
            r == self.static_range@.contains(range),
    {
        self.static_range.contains(&range)
    }

    /// Serves exactly the listed ranges from now on.
    pub fn set_static_ranges(&mut self, ranges: &Vec<u16>)
        ensures
            final(self).static_range@ == ranges@.to_set(),
    {
        self.static_range.clear();
        let mut i: usize = 0;
        while i < ranges.len()
            invariant
                i <= ranges@.len(),
                self.static_range@ == ranges@.subrange(0, i as int).to_set(),
            decreases ranges@.len() - i,
        {
            self.static_range.insert(ranges[i]);
            i = i + 1;
            proof {
                let prev = ranges@.subrange(0, i - 1);
                let cur = ranges@.subrange(0, i as int);
                assert forall|x: u16| cur.contains(x) <==> (prev.contains(x) || x == ranges@[i - 1]) by {
                    if cur.contains(x) {
                        let j = choose|j: int| 0 <= j < cur.len() && cur[j] == x;
                        if j < i - 1 {
                            assert(prev[j] == x);
                        }
                    }
                    if prev.contains(x) {
                        let j = choose|j: int| 0 <= j < prev.len() && prev[j] == x;
                        assert(cur[j] == x);
                    }
                    if x == ranges@[i - 1] {
                        assert(cur[i - 1] == x);
                    }
                }
                assert(self.static_range@ =~= cur.to_set());
            }
        }
        assert(ranges@.subrange(0, ranges@.len() as int) =~= ranges@);
    }
}

} // verus!
