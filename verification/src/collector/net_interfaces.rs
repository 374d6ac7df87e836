//! Network interfaces for the network drawer: which ones to show, what kind
//! each is, and what `ifconfig` and the Wi-Fi reports say about them.
//!
//! Enumerating addresses, asking System Configuration and CoreWLAN, and
//! running `ifconfig` or `system_profiler` is I/O done by the caller; the
//! parsing, classification, filtering and ordering live here.
use vstd::prelude::*;
use crate::json::{Json, get, get_spec, text_spec, text_of, u32_spec, u32_of};
use crate::text::{
    to_lower, contains_seq, starts_with, is_digit, parse_u32_spec, parse_i32_spec, split_on, first_of,
    trim, chars_of, lowercase, contains_chars, contains_str, starts_with_str, push_str, push_char,
    string_of, string_of_range, parse_u32_in, parse_i32_in, find_char_from, lemma_first_of_bound,
    lemma_split_on_nonempty, occurs_at, occurs_at_exec, is_ws, is_whitespace, trim_bounds, copy_range,
};
use crate::services::probe::{find_label, upsert, lookup, lemma_find_label_range, lemma_find_label_same_labels};
use crate::text::{lex_lt, lex_less, lemma_lex_irreflexive, lemma_lex_transitive, lemma_lex_total, lemma_lex_asymmetric};

verus! {

/// `s` lowercased with a space between: what the kind is guessed from.
pub open spec fn sc_haystack(interface_type: Seq<char>, display_name: Seq<char>) -> Seq<char> {
    to_lower(interface_type + seq![' '] + display_name)
}

/// The UI kind System Configuration's type and display name point to.
pub open spec fn sc_kind(interface_type: Seq<char>, display_name: Seq<char>) -> Option<Seq<char>> {
    let h = sc_haystack(interface_type, display_name);
    if contains_seq(h, "ieee80211"@) || contains_seq(h, "wi-fi"@) || contains_seq(h, "airport"@) {
        Some("wifi"@)
    } else if contains_seq(h, "ethernet"@) || contains_seq(h, "lan"@) {
        Some("ethernet"@)
    } else if contains_seq(h, "bridge"@) || contains_seq(h, "thunderbolt"@) {
        Some("bridge"@)
    } else {
        None
    }
}

pub open spec fn opt_str_view(o: Option<&'static str>) -> Option<Seq<char>> {
    match o {
        Some(s) => Some(s@),
        None => None,
    }
}

pub fn classify_sc_interface(interface_type: &str, display_name: &str) -> (r: Option<&'static str>)
    ensures
        opt_str_view(r) == sc_kind(interface_type@, display_name@),
{
    let mut hay = String::new();
    push_str(&mut hay, interface_type);
    push_char(&mut hay, ' ');
    push_str(&mut hay, display_name);
    let raw = chars_of(hay.as_str());
    assert(raw@ =~= interface_type@ + seq![' '] + display_name@);
    let h = lowercase(raw.as_slice());
    let h = h.as_slice();
    if contains_str(h, "ieee80211") || contains_str(h, "wi-fi") || contains_str(h, "airport") {
        Some("wifi")
    } else if contains_str(h, "ethernet") || contains_str(h, "lan") {
        Some("ethernet")
    } else if contains_str(h, "bridge") || contains_str(h, "thunderbolt") {
        Some("bridge")
    } else {
        None
    }
}

/// Display order of kinds: Wi-Fi and Ethernet first, then VPN, bridge,
/// peer-to-peer, everything else.
pub open spec fn kind_rank_spec(kind: Seq<char>) -> u8 {
    if kind == "wifi"@ {
        0
    } else if kind == "ethernet"@ {
        1
    } else if kind == "vpn"@ {
        2
    } else if kind == "bridge"@ {
        3
    } else if kind == "p2p"@ {
        4
    } else {
        5
    }
}

pub fn kind_rank(kind: &str) -> (r: u8)
    ensures
        r == kind_rank_spec(kind@),
{
    if crate::text::str_eq(kind, "wifi") {
        0
    } else if crate::text::str_eq(kind, "ethernet") {
        1
    } else if crate::text::str_eq(kind, "vpn") {
        2
    } else if crate::text::str_eq(kind, "bridge") {
        3
    } else if crate::text::str_eq(kind, "p2p") {
        4
    } else {
        5
    }
}

/// The kind guessed from the BSD name alone, when System Configuration
/// does not know the interface.
pub open spec fn name_kind(name: Seq<char>) -> Seq<char> {
    if name == "lo0"@ || starts_with(name, "lo"@) {
        "loopback"@
    } else if starts_with(name, "bridge"@) {
        "bridge"@
    } else if starts_with(name, "awdl"@) || starts_with(name, "llw"@) || starts_with(name, "ap"@) {
        "p2p"@
    } else if starts_with(name, "utun"@) || starts_with(name, "ipsec"@) || starts_with(name, "ppp"@) {
        "vpn"@
    } else if starts_with(name, "en"@) {
        "ethernet"@
    } else {
        "other"@
    }
}

pub fn classify_name_fallback(name: &str) -> (r: &'static str)
    ensures
        r@ == name_kind(name@),
{
    let cs = chars_of(name);
    let n = cs.as_slice();
    if crate::text::str_eq(name, "lo0") || starts_with_str(n, "lo") {
        "loopback"
    } else if starts_with_str(n, "bridge") {
        "bridge"
    } else if starts_with_str(n, "awdl") || starts_with_str(n, "llw") || starts_with_str(n, "ap") {
        "p2p"
    } else if starts_with_str(n, "utun") || starts_with_str(n, "ipsec") || starts_with_str(n, "ppp") {
        "vpn"
    } else if starts_with_str(n, "en") {
        "ethernet"
    } else {
        "other"
    }
}

/// Number of leading ASCII digits.
pub open spec fn leading_digits(s: Seq<char>) -> nat
    decreases s.len(),
{
    if s.len() > 0 && is_digit(s[0]) {
        1 + leading_digits(s.drop_first())
    } else {
        0
    }
}

/// Count the ASCII digits at the start of `cs[from..]`.
pub fn leading_digits_from(cs: &[char], from: usize) -> (k: usize)
    requires
        from <= cs@.len(),
    ensures
        from + k <= cs@.len(),
        k == leading_digits(cs@.skip(from as int)),
{
    let n = cs.len();
    let mut j = from;
    while j < n && '0' <= cs[j] && cs[j] <= '9'
        invariant
            from <= j <= n == cs@.len(),
            leading_digits(cs@.skip(from as int)) == (j - from) + leading_digits(cs@.skip(j as int)),
        decreases n - j,
    {
        assert(cs@.skip(j as int).drop_first() =~= cs@.skip(j + 1));
        j += 1;
    }
    j - from
}

/// The channel number a report starts with: `"36 (5 GHz, 80 MHz)"` is 36.
pub open spec fn channel_spec(raw: Seq<char>) -> Option<u32> {
    parse_u32_spec(raw.take(leading_digits(raw) as int))
}

pub fn parse_channel(raw: &str) -> (r: Option<u32>)
    ensures
        r == channel_spec(raw@),
{
    let cs = chars_of(raw);
    let k = leading_digits_from(cs.as_slice(), 0);
    assert(cs@.skip(0) =~= cs@);
    assert(cs@.subrange(0, k as int) =~= cs@.take(k as int));
    parse_u32_in(cs.as_slice(), 0, k)
}

/// The Wi-Fi band a channel number lies in.
pub open spec fn band_spec(ch: u32) -> Seq<char> {
    if ch <= 14 {
        "2.4 GHz"@
    } else if ch < 200 {
        "5 GHz"@
    } else {
        "6 GHz"@
    }
}

pub fn channel_to_band(ch: u32) -> (r: String)
    ensures
        r@ == band_spec(ch),
{
    let mut s = String::new();
    if ch <= 14 {
        push_str(&mut s, "2.4 GHz");
    } else if ch < 200 {
        push_str(&mut s, "5 GHz");
    } else {
        push_str(&mut s, "6 GHz");
    }
    s
}

/// The digits and minus signs of `s`, in order.
pub open spec fn signed_digits(s: Seq<char>) -> Seq<char>
    decreases s.len(),
{
    if s.len() == 0 {
        Seq::empty()
    } else if is_digit(s.last()) || s.last() == '-' {
        signed_digits(s.drop_last()).push(s.last())
    } else {
        signed_digits(s.drop_last())
    }
}

fn signed_digits_of(cs: &Vec<char>) -> (r: Vec<char>)
    ensures
        r@ == signed_digits(cs@),
{
    let mut r: Vec<char> = Vec::new();
    let n = cs.len();
    for i in 0..n
        invariant
            n == cs@.len(),
            r@ == signed_digits(cs@.take(i as int)),
    {
        assert(cs@.take(i + 1).drop_last() =~= cs@.take(i as int));
        let c = cs[i];
        if ('0' <= c && c <= '9') || c == '-' {
            r.push(c);
        }
    }
    assert(cs@.take(n as int) =~= cs@);
    r
}

/// `"-54 / -90 dBm"`: the signal (first) or noise (second) figure.
pub open spec fn dbm_field(s: Seq<char>, which: int) -> Option<i32> {
    let parts = split_on(s, '/');
    if parts.len() > which {
        parse_i32_spec(signed_digits(parts[which]))
    } else {
        None
    }
}

fn dbm_field_exec(s: &str, which: usize) -> (r: Option<i32>)
    requires
        which <= 1,
    ensures
        r == dbm_field(s@, which as int),
{
    let cs = chars_of(s);
    let parts = crate::text::split_chars(cs.as_slice(), '/');
    if parts.len() > which {
        assert(parts.deep_view()[which as int] == parts@[which as int]@);
        let d = signed_digits_of(&parts[which]);
        crate::text::parse_i32_of(&d)
    } else {
        None
    }
}

/// `"-54 / -90 dBm"` → -54 (signal).
pub fn parse_rssi(s: &str) -> (r: Option<i32>)
    ensures
        r == dbm_field(s@, 0),
{
    let r = dbm_field_exec(s, 0);
    r
}

/// `"-54 / -90 dBm"` → -90 (noise).
pub fn parse_noise(s: &str) -> (r: Option<i32>)
    ensures
        r == dbm_field(s@, 1),
{
    dbm_field_exec(s, 1)
}

/// `s` without `prefix`, when it starts with it.
pub open spec fn strip_prefix_or_self(s: Seq<char>, prefix: Seq<char>) -> Seq<char> {
    if starts_with(s, prefix) {
        s.skip(prefix.len() as int)
    } else {
        s
    }
}

/// `s` with every `from` replaced by `to`.
pub open spec fn replace_char(s: Seq<char>, from: char, to: char) -> Seq<char> {
    s.map_values(|c: char| if c == from { to } else { c })
}

/// A `system_profiler` security mode, made readable:
/// `spairport_security_mode_wpa2_personal` reads `wpa2 personal`.
pub open spec fn security_mode_spec(s: Seq<char>) -> Seq<char> {
    replace_char(strip_prefix_or_self(s, "spairport_security_mode_"@), '_', ' ')
}

pub fn normalize_security(s: &str) -> (r: String)
    ensures
        r@ == security_mode_spec(s@),
{
    let cs = chars_of(s);
    let p = chars_of("spairport_security_mode_");
    let from: usize = if starts_with_str(cs.as_slice(), "spairport_security_mode_") {
        p.len()
    } else {
        0
    };
    let ghost rest = strip_prefix_or_self(s@, "spairport_security_mode_"@);
    assert(rest =~= cs@.skip(from as int));
    let mut r = String::new();
    let n = cs.len();
    let mut i = from;
    while i < n
        invariant
            from <= i <= n == cs@.len(),
            rest =~= cs@.skip(from as int),
            r@ == replace_char(cs@.subrange(from as int, i as int), '_', ' '),
        decreases n - i,
    {
        let c = cs[i];
        push_char(&mut r, if c == '_' { ' ' } else { c });
        assert(cs@.subrange(from as int, i + 1) =~= cs@.subrange(from as int, i as int).push(c));
        assert(replace_char(cs@.subrange(from as int, i + 1), '_', ' ') =~= replace_char(
            cs@.subrange(from as int, i as int),
            '_',
            ' ',
        ).push(if c == '_' { ' ' } else { c }));
        i += 1;
    }
    assert(cs@.subrange(from as int, n as int) =~= rest);
    r
}

/// Link speed in bits/s from an `ifconfig` `media:` line.
pub open spec fn media_speed_spec(line: Seq<char>) -> Option<u64> {
    let l = to_lower(line);
    if contains_seq(l, "10gbase"@) || contains_seq(l, "10000base"@) {
        Some(10_000_000_000)
    } else if contains_seq(l, "2.5gbase"@) || contains_seq(l, "2500base"@) {
        Some(2_500_000_000)
    } else if contains_seq(l, "5gbase"@) {
        Some(5_000_000_000)
    } else if contains_seq(l, "1000base"@) || contains_seq(l, "1gbase"@) {
        Some(1_000_000_000)
    } else if contains_seq(l, "100base"@) {
        Some(100_000_000)
    } else if contains_seq(l, "10base"@) {
        Some(10_000_000)
    } else {
        None
    }
}

/// The link-rate tokens a `media:` line can carry, each with the speed it
/// names, in bits/s.
pub open spec fn media_rate_tokens() -> Seq<(Seq<char>, u64)> {
    seq![
        ("10base"@, 10_000_000u64),
        ("100base"@, 100_000_000u64),
        ("1000base"@, 1_000_000_000u64),
        ("1gbase"@, 1_000_000_000u64),
        ("2500base"@, 2_500_000_000u64),
        ("2.5gbase"@, 2_500_000_000u64),
        ("5gbase"@, 5_000_000_000u64),
        ("10000base"@, 10_000_000_000u64),
        ("10gbase"@, 10_000_000_000u64),
    ]
}

/// A `media:` line that names one link rate, in any case, has the speed
/// that rate names: `100baseTX` is 100 Mbit/s, `1000baseT` a gigabit.
pub proof fn law_media_speed_is_the_named_rate(line: Seq<char>, k: int)
    requires
        0 <= k < media_rate_tokens().len(),
        contains_seq(to_lower(line), media_rate_tokens()[k].0),
        forall|i: int|
            0 <= i < media_rate_tokens().len() && i != k ==> !contains_seq(
                to_lower(line),
                #[trigger] media_rate_tokens()[i].0,
            ),
    ensures
        media_speed_spec(line) == Some(media_rate_tokens()[k].1),
{
    let t = media_rate_tokens();
    let l = to_lower(line);
    assert(t[0].0 == "10base"@);
    assert(t[1].0 == "100base"@);
    assert(t[2].0 == "1000base"@);
    assert(t[3].0 == "1gbase"@);
    assert(t[4].0 == "2500base"@);
    assert(t[5].0 == "2.5gbase"@);
    assert(t[6].0 == "5gbase"@);
    assert(t[7].0 == "10000base"@);
    assert(t[8].0 == "10gbase"@);
    if k != 0 { assert(!contains_seq(l, t[0].0)); }
    if k != 1 { assert(!contains_seq(l, t[1].0)); }
    if k != 2 { assert(!contains_seq(l, t[2].0)); }
    if k != 3 { assert(!contains_seq(l, t[3].0)); }
    if k != 4 { assert(!contains_seq(l, t[4].0)); }
    if k != 5 { assert(!contains_seq(l, t[5].0)); }
    if k != 6 { assert(!contains_seq(l, t[6].0)); }
    if k != 7 { assert(!contains_seq(l, t[7].0)); }
    if k != 8 { assert(!contains_seq(l, t[8].0)); }
}

fn media_speed_chars(line: &[char]) -> (r: Option<u64>)
    ensures
        r == media_speed_spec(line@),
{
    let lv = lowercase(line);
    let l = lv.as_slice();
    if contains_str(l, "10gbase") || contains_str(l, "10000base") {
        Some(10_000_000_000)
    } else if contains_str(l, "2.5gbase") || contains_str(l, "2500base") {
        Some(2_500_000_000)
    } else if contains_str(l, "5gbase") {
        Some(5_000_000_000)
    } else if contains_str(l, "1000base") || contains_str(l, "1gbase") {
        Some(1_000_000_000)
    } else if contains_str(l, "100base") {
        Some(100_000_000)
    } else if contains_str(l, "10base") {
        Some(10_000_000)
    } else {
        None
    }
}

pub fn parse_media_speed(line: &str) -> (r: Option<u64>)
    ensures
        r == media_speed_spec(line@),
{
    let cs = chars_of(line);
    media_speed_chars(cs.as_slice())
}

/// The security a Wi-Fi network uses, as CoreWLAN reports it.
#[derive(Clone, Copy, Debug, PartialEq, Eq, Structural)]
pub enum WifiSecurity {
    Unsecured,
    Wep,
    DynamicWep,
    WpaPersonal,
    WpaPersonalMixed,
    Wpa2Personal,
    Personal,
    Wpa3Personal,
    Wpa3Transition,
    WpaEnterprise,
    WpaEnterpriseMixed,
    Wpa2Enterprise,
    Enterprise,
    Wpa3Enterprise,
    Owe,
    OweTransition,
    Unknown,
}

/// The label the UI shows for a security mode; `None` for one it does not
/// know.
pub open spec fn security_label_spec(s: WifiSecurity) -> Option<Seq<char>> {
    match s {
        WifiSecurity::Unsecured => Some("Open"@),
        WifiSecurity::Wep | WifiSecurity::DynamicWep => Some("WEP"@),
        WifiSecurity::WpaPersonal => Some("WPA Personal"@),
        WifiSecurity::WpaPersonalMixed => Some("WPA/WPA2 Personal"@),
        WifiSecurity::Wpa2Personal | WifiSecurity::Personal => Some("WPA2 Personal"@),
        WifiSecurity::Wpa3Personal => Some("WPA3 Personal"@),
        WifiSecurity::Wpa3Transition => Some("WPA2/WPA3 Personal"@),
        WifiSecurity::WpaEnterprise => Some("WPA Enterprise"@),
        WifiSecurity::WpaEnterpriseMixed => Some("WPA/WPA2 Enterprise"@),
        WifiSecurity::Wpa2Enterprise | WifiSecurity::Enterprise => Some("WPA2 Enterprise"@),
        WifiSecurity::Wpa3Enterprise => Some("WPA3 Enterprise"@),
        WifiSecurity::Owe | WifiSecurity::OweTransition => Some("Enhanced Open"@),
        WifiSecurity::Unknown => None,
    }
}

pub open spec fn opt_string_view(o: Option<String>) -> Option<Seq<char>> {
    match o {
        Some(s) => Some(s@),
        None => None,
    }
}

fn owned(s: &str) -> (r: String)
    ensures
        r@ == s@,
{
    let mut r = String::new();
    push_str(&mut r, s);
    r
}

pub fn security_label(security: WifiSecurity) -> (r: Option<String>)
    ensures
        opt_string_view(r) == security_label_spec(security),
{
    let label = match security {
        WifiSecurity::Unsecured => "Open",
        WifiSecurity::Wep | WifiSecurity::DynamicWep => "WEP",
        WifiSecurity::WpaPersonal => "WPA Personal",
        WifiSecurity::WpaPersonalMixed => "WPA/WPA2 Personal",
        WifiSecurity::Wpa2Personal | WifiSecurity::Personal => "WPA2 Personal",
        WifiSecurity::Wpa3Personal => "WPA3 Personal",
        WifiSecurity::Wpa3Transition => "WPA2/WPA3 Personal",
        WifiSecurity::WpaEnterprise => "WPA Enterprise",
        WifiSecurity::WpaEnterpriseMixed => "WPA/WPA2 Enterprise",
        WifiSecurity::Wpa2Enterprise | WifiSecurity::Enterprise => "WPA2 Enterprise",
        WifiSecurity::Wpa3Enterprise => "WPA3 Enterprise",
        WifiSecurity::Owe | WifiSecurity::OweTransition => "Enhanced Open",
        WifiSecurity::Unknown => return None,
    };
    Some(owned(label))
}

/// Wi-Fi details of a wireless interface.
#[derive(Debug)]
pub struct WirelessInfo {
    pub ssid: Option<String>,
    pub bssid: Option<String>,
    pub channel: Option<u32>,
    /// `"2.4 GHz"`, `"5 GHz"` or `"6 GHz"`.
    pub band: Option<String>,
    pub rssi_dbm: Option<i32>,
    pub noise_dbm: Option<i32>,
    /// Negotiated transmit rate in Mbps.
    pub tx_rate_mbps: Option<u32>,
    pub security: Option<String>,
}

impl Default for WirelessInfo {
    fn default() -> (w: WirelessInfo)
        ensures
            w.ssid is None && w.bssid is None && w.channel is None && w.band is None
                && w.rssi_dbm is None && w.noise_dbm is None && w.tx_rate_mbps is None
                && w.security is None,
    {
        WirelessInfo {
            ssid: None,
            bssid: None,
            channel: None,
            band: None,
            rssi_dbm: None,
            noise_dbm: None,
            tx_rate_mbps: None,
            security: None,
        }
    }
}

/// What `ifconfig` says about one interface.
#[derive(Debug)]
pub struct IfcInfo {
    pub mac: Option<String>,
    pub link_speed_bps: Option<u64>,
    pub mtu: Option<u32>,
    pub is_up: bool,
}

/// [`IfcInfo`] as the verifier sees it.
pub struct IfcModel {
    pub mac: Option<Seq<char>>,
    pub link_speed_bps: Option<u64>,
    pub mtu: Option<u32>,
    pub is_up: bool,
}

pub open spec fn ifc_model(i: IfcInfo) -> IfcModel {
    IfcModel { mac: opt_string_view(i.mac), link_speed_bps: i.link_speed_bps, mtu: i.mtu, is_up: i.is_up }
}

pub open spec fn ifc_default() -> IfcModel {
    IfcModel { mac: None, link_speed_bps: None, mtu: None, is_up: false }
}

/// Index of the first occurrence of `p` in `s` at or after `i`, or -1.
pub open spec fn find_from(s: Seq<char>, p: Seq<char>, i: int) -> int
    decreases s.len() + 1 - i,
{
    if i < 0 || i + p.len() > s.len() {
        -1
    } else if occurs_at(s, p, i) {
        i
    } else {
        find_from(s, p, i + 1)
    }
}

/// The stored entry for `name`, or the default one.
pub open spec fn ifc_get(acc: Seq<(Seq<char>, IfcModel)>, name: Seq<char>) -> IfcModel {
    match lookup(acc, name) {
        Some(m) => m,
        None => ifc_default(),
    }
}

/// Whether a line opens an interface's block: it starts in the first column
/// and holds a colon.
pub open spec fn is_header(line: Seq<char>) -> bool {
    line.len() > 0 && !is_ws(line[0]) && first_of(line, ':') < line.len()
}

/// The MTU a header line announces, or `keep` when it announces none.
pub open spec fn header_mtu(line: Seq<char>, keep: Option<u32>) -> Option<u32> {
    let pos = find_from(line, "mtu "@, 0);
    if pos >= 0 {
        channel_spec(line.skip(pos + 4))
    } else {
        keep
    }
}

/// One line of `ifconfig` applied to the entries so far and the interface
/// whose block is open.
pub open spec fn ifconfig_step(
    st: (Seq<(Seq<char>, IfcModel)>, Option<Seq<char>>),
    line: Seq<char>,
) -> (Seq<(Seq<char>, IfcModel)>, Option<Seq<char>>) {
    let (acc, current) = st;
    if is_header(line) {
        let name = trim(line.take(first_of(line, ':') as int));
        let base = ifc_get(acc, name);
        let m = IfcModel {
            is_up: contains_seq(line, "UP,"@) || contains_seq(line, "<UP"@),
            mtu: header_mtu(line, base.mtu),
            ..base
        };
        (upsert(acc, (name, m)), Some(name))
    } else {
        match current {
            None => (acc, current),
            Some(name) => {
                let base = ifc_get(acc, name);
                let l = trim(line);
                let m = if starts_with(l, "ether "@) {
                    IfcModel { mac: Some(trim(l.skip(6))), ..base }
                } else if starts_with(l, "media:"@) {
                    IfcModel { link_speed_bps: media_speed_spec(l), ..base }
                } else if starts_with(l, "status:"@) {
                    IfcModel { is_up: base.is_up || contains_seq(l, "active"@), ..base }
                } else {
                    base
                };
                (upsert(acc, (name, m)), current)
            },
        }
    }
}

/// All lines applied in order.
pub open spec fn ifconfig_state(ls: Seq<Seq<char>>) -> (Seq<(Seq<char>, IfcModel)>, Option<Seq<char>>)
    decreases ls.len(),
{
    if ls.len() == 0 {
        (Seq::empty(), None)
    } else {
        ifconfig_step(ifconfig_state(ls.drop_last()), ls.last())
    }
}

pub open spec fn ifc_entries_view(r: Seq<(String, IfcInfo)>) -> Seq<(Seq<char>, IfcModel)> {
    Seq::new(r.len(), |i: int| (r[i].0@, ifc_model(r[i].1)))
}

fn find_from_exec(cs: &[char], p: &str, from: usize) -> (r: Option<usize>)
    requires
        from <= cs@.len(),
    ensures
        match r {
            Some(i) => i as int == find_from(cs@, p@, from as int) && i + p@.len() <= cs@.len(),
            None => find_from(cs@, p@, from as int) == -1,
        },
{
    let pv = chars_of(p);
    let n = cs.len();
    let m = pv.len();
    if m > n || from > n - m {
        return None;
    }
    let last = n - m;
    let mut i = from;
    loop
        invariant
            from <= i <= last,
            last + m == n == cs@.len(),
            m == pv@.len(),
            pv@ == p@,
            find_from(cs@, p@, from as int) == find_from(cs@, p@, i as int),
        decreases last - i,
    {
        if occurs_at_exec(cs, pv.as_slice(), i) {
            return Some(i);
        }
        if i == last {
            assert(find_from(cs@, p@, i + 1) == -1);
            return None;
        }
        i += 1;
    }
}

fn copy_ifc(i: &IfcInfo) -> (r: IfcInfo)
    ensures
        ifc_model(r) == ifc_model(*i),
{
    IfcInfo {
        mac: match &i.mac {
            Some(m) => Some(m.clone()),
            None => None,
        },
        link_speed_bps: i.link_speed_bps,
        mtu: i.mtu,
        is_up: i.is_up,
    }
}

/// Index of the last entry named `name`, as [`find_label`] finds it.
fn find_ifc(acc: &Vec<(String, IfcInfo)>, name: &Vec<char>) -> (r: Option<usize>)
    ensures
        match r {
            Some(i) => i < acc@.len() && i as int == find_label(ifc_entries_view(acc@), name@),
            None => find_label(ifc_entries_view(acc@), name@) == -1,
        },
{
    let ghost v = ifc_entries_view(acc@);
    let mut i = acc.len();
    assert(v.take(i as int) =~= v);
    while i > 0
        invariant
            i <= acc@.len(),
            v == ifc_entries_view(acc@),
            find_label(v, name@) == find_label(v.take(i as int), name@),
        decreases i,
    {
        let ghost t = v.take(i as int);
        assert(t.drop_last() =~= v.take(i - 1));
        let label = chars_of(acc[i - 1].0.as_str());
        let same = label.len() == name.len() && occurs_at_exec(label.as_slice(), name.as_slice(), 0);
        assert(same == (label@ == name@)) by {
            if label@ == name@ {
                assert(label@.subrange(0, name@.len() as int) =~= label@);
            }
            if same {
                assert(label@.subrange(0, name@.len() as int) =~= label@);
            }
        }
        assert(t.last().0 == acc@[i - 1].0@);
        if same {
            return Some(i - 1);
        }
        i -= 1;
    }
    assert(v.take(0) =~= Seq::<(Seq<char>, IfcModel)>::empty());
    None
}

/// Store `info` under `name` (the name is given as characters).
fn put_ifc(acc: &mut Vec<(String, IfcInfo)>, name: &Vec<char>, info: IfcInfo) -> (idx: usize)
    ensures
        ifc_entries_view(final(acc)@) == upsert(ifc_entries_view(old(acc)@), (name@, ifc_model(info))),
        idx < final(acc)@.len(),
        final(acc)@[idx as int].0@ == name@,
        idx as int == find_label(ifc_entries_view(final(acc)@), name@),
{
    let ghost v = ifc_entries_view(acc@);
    let ghost m = ifc_model(info);
    match find_ifc(acc, name) {
        Some(i) => {
            let label = string_of(name.as_slice());
            proof {
                crate::services::probe::lemma_find_label_range(v, name@);
            }
            acc.set(i, (label, info));
            assert(ifc_entries_view(acc@) =~= v.update(i as int, (name@, m)));
            proof {
                let u = ifc_entries_view(acc@);
                assert forall|j: int| 0 <= j < v.len() implies #[trigger] v[j].0 == u[j].0 by {}
                crate::services::probe::lemma_find_label_same_labels(v, u, name@);
            }
            i
        },
        None => {
            let label = string_of(name.as_slice());
            acc.push((label, info));
            assert(ifc_entries_view(acc@) =~= v.push((name@, m)));
            let i = acc.len() - 1;
            proof {
                let u = ifc_entries_view(acc@);
                assert(u.last().0 == name@);
            }
            i
        },
    }
}

/// The stored entry for `name`, or a default one (`entry().or_default()`).
fn get_ifc(acc: &Vec<(String, IfcInfo)>, name: &Vec<char>) -> (r: IfcInfo)
    ensures
        ifc_model(r) == ifc_get(ifc_entries_view(acc@), name@),
{
    match find_ifc(acc, name) {
        Some(i) => {
            let r = copy_ifc(&acc[i].1);
            r
        },
        None => IfcInfo { mac: None, link_speed_bps: None, mtu: None, is_up: false },
    }
}

/// Parse `ifconfig` output into one entry per interface.
pub fn parse_ifconfig(text: &str) -> (r: Vec<(String, IfcInfo)>)
    ensures
        ifc_entries_view(r@) == ifconfig_state(crate::text::lines(text@)).0,
{
    let cs = chars_of(text);
    let ls = crate::text::split_lines(cs.as_slice());
    let mut acc: Vec<(String, IfcInfo)> = Vec::new();
    let mut current: Option<Vec<char>> = None;
    let n = ls.len();
    assert(ifc_entries_view(acc@) =~= Seq::<(Seq<char>, IfcModel)>::empty());
    for i in 0..n
        invariant
            n == ls@.len(),
            ls.deep_view() == crate::text::lines(text@),
            ifconfig_state(ls.deep_view().take(i as int)).0 == ifc_entries_view(acc@),
            ifconfig_state(ls.deep_view().take(i as int)).1 == match current {
                Some(c) => Some(c@),
                None => None::<Seq<char>>,
            },
    {
        assert(ls.deep_view().take(i + 1).drop_last() =~= ls.deep_view().take(i as int));
        assert(ls.deep_view().take(i + 1).last() == ls@[i as int]@);
        let line = ls[i].as_slice();
        let len = line.len();
        let colon = find_char_from(line, 0, ':');
        assert(line@.skip(0) =~= line@);
        let header = len > 0 && !is_whitespace(line[0]) && colon < len;
        if header {
            let (a, b) = trim_bounds(line, 0, colon);
            assert(line@.subrange(0, colon as int) =~= line@.take(colon as int));
            let name = copy_range(line, a, b);
            let base = get_ifc(&acc, &name);
            let up = contains_str(line, "UP,") || contains_str(line, "<UP");
            let mtu = match find_from_exec(line, "mtu ", 0) {
                Some(pos) => {
                    proof {
                        reveal_strlit("mtu ");
                    }
                    let start = pos + 4;
                    let k = leading_digits_from(line, start);
                    assert(line@.skip(start as int).take(k as int) =~= line@.subrange(start as int, start + k));
                    parse_u32_in(line, start, start + k)
                },
                None => base.mtu,
            };
            let info = IfcInfo { mac: base.mac, link_speed_bps: base.link_speed_bps, mtu, is_up: up };
            let _ = put_ifc(&mut acc, &name, info);
            current = Some(name);
        } else {
            match current {
                None => {},
                Some(ref name) => {
                    let base = get_ifc(&acc, name);
                    let (a, b) = trim_bounds(line, 0, len);
                    assert(line@.subrange(0, len as int) =~= line@);
                    let l = copy_range(line, a, b);
                    let ls2 = l.as_slice();
                    let info = if starts_with_str(ls2, "ether ") {
                        proof {
                            reveal_strlit("ether ");
                        }
                        let (c, d) = trim_bounds(ls2, 6, l.len());
                        assert(l@.subrange(6, l@.len() as int) =~= l@.skip(6));
                        IfcInfo {
                            mac: Some(string_of_range(ls2, c, d)),
                            link_speed_bps: base.link_speed_bps,
                            mtu: base.mtu,
                            is_up: base.is_up,
                        }
                    } else if starts_with_str(ls2, "media:") {
                        IfcInfo {
                            mac: base.mac,
                            link_speed_bps: media_speed_chars(ls2),
                            mtu: base.mtu,
                            is_up: base.is_up,
                        }
                    } else if starts_with_str(ls2, "status:") {
                        let up = base.is_up || contains_str(ls2, "active");
                        IfcInfo { mac: base.mac, link_speed_bps: base.link_speed_bps, mtu: base.mtu, is_up: up }
                    } else {
                        base
                    };
                    let _ = put_ifc(&mut acc, name, info);
                },
            }
        }
    }
    assert(ls.deep_view().take(n as int) =~= ls.deep_view());
    acc
}

/// Addresses grouped per interface: `(name, IPv4 list, IPv6 list)`.
pub open spec fn groups_view(r: Seq<(String, Vec<String>, Vec<String>)>) -> Seq<(Seq<char>, (Seq<Seq<char>>, Seq<Seq<char>>))> {
    Seq::new(r.len(), |i: int| (r[i].0@, (r[i].1.deep_view(), r[i].2.deep_view())))
}

/// One address `(interface, is IPv4, text)` added to its interface's list.
pub open spec fn group_step(
    acc: Seq<(Seq<char>, (Seq<Seq<char>>, Seq<Seq<char>>))>,
    a: (Seq<char>, bool, Seq<char>),
) -> Seq<(Seq<char>, (Seq<Seq<char>>, Seq<Seq<char>>))> {
    let cur = match lookup(acc, a.0) {
        Some(c) => c,
        None => (Seq::empty(), Seq::empty()),
    };
    upsert(acc, (a.0, if a.1 { (cur.0.push(a.2), cur.1) } else { (cur.0, cur.1.push(a.2)) }))
}

pub open spec fn grouped(addrs: Seq<(Seq<char>, bool, Seq<char>)>) -> Seq<(Seq<char>, (Seq<Seq<char>>, Seq<Seq<char>>))>
    decreases addrs.len(),
{
    if addrs.len() == 0 {
        Seq::empty()
    } else {
        group_step(grouped(addrs.drop_last()), addrs.last())
    }
}

fn find_group(acc: &Vec<(String, Vec<String>, Vec<String>)>, name: &String) -> (r: Option<usize>)
    ensures
        match r {
            Some(i) => i < acc@.len() && i as int == find_label(groups_view(acc@), name@),
            None => find_label(groups_view(acc@), name@) == -1,
        },
{
    let ghost v = groups_view(acc@);
    let mut i = acc.len();
    assert(v.take(i as int) =~= v);
    while i > 0
        invariant
            i <= acc@.len(),
            v == groups_view(acc@),
            find_label(v, name@) == find_label(v.take(i as int), name@),
        decreases i,
    {
        let ghost t = v.take(i as int);
        assert(t.drop_last() =~= v.take(i - 1));
        assert(t.last().0 == acc@[i - 1].0@);
        if acc[i - 1].0 == *name {
            return Some(i - 1);
        }
        i -= 1;
    }
    assert(v.take(0) =~= Seq::<(Seq<char>, (Seq<Seq<char>>, Seq<Seq<char>>))>::empty());
    None
}

/// Group the machine's addresses per interface, in the order interfaces
/// first appear. Each entry of `addrs` is `(interface, is IPv4, address)`.
pub fn group_addresses(addrs: &Vec<(String, bool, String)>) -> (r: Vec<(String, Vec<String>, Vec<String>)>)
    ensures
        groups_view(r@) == grouped(addrs@.map_values(|a: (String, bool, String)| (a.0@, a.1, a.2@))),
{
    let ghost av = addrs@.map_values(|a: (String, bool, String)| (a.0@, a.1, a.2@));
    let mut acc: Vec<(String, Vec<String>, Vec<String>)> = Vec::new();
    let n = addrs.len();
    assert(groups_view(acc@) =~= Seq::<(Seq<char>, (Seq<Seq<char>>, Seq<Seq<char>>))>::empty());
    for k in 0..n
        invariant
            n == addrs@.len(),
            av == addrs@.map_values(|a: (String, bool, String)| (a.0@, a.1, a.2@)),
            groups_view(acc@) == grouped(av.take(k as int)),
    {
        assert(av.take(k + 1).drop_last() =~= av.take(k as int));
        assert(av.take(k + 1).last() == av[k as int]);
        let ghost v = groups_view(acc@);
        let (ref name, is_v4, ref ip) = addrs[k];
        proof {
            lemma_find_label_range(v, name@);
        }
        match find_group(&acc, name) {
            Some(i) => {
                let mut e = acc.remove(i);
                if is_v4 {
                    e.1.push(ip.clone());
                } else {
                    e.2.push(ip.clone());
                }
                let ghost ev = (e.0@, (e.1.deep_view(), e.2.deep_view()));
                acc.insert(i, e);
                proof {
                    let cur = v[i as int].1;
                    assert(lookup(v, name@) == Some(cur));
                    assert(ev.0 == name@);
                    assert(ev.1 == (if is_v4 { (cur.0.push(ip@), cur.1) } else { (cur.0, cur.1.push(ip@)) }));
                    assert(groups_view(acc@) =~= v.update(i as int, ev));
                }
            },
            None => {
                let mut v4: Vec<String> = Vec::new();
                let mut v6: Vec<String> = Vec::new();
                if is_v4 {
                    v4.push(ip.clone());
                } else {
                    v6.push(ip.clone());
                }
                let e = (name.clone(), v4, v6);
                let ghost ev = (e.0@, (e.1.deep_view(), e.2.deep_view()));
                acc.push(e);
                proof {
                    assert(lookup(v, name@) is None);
                    assert(ev.1.0 =~= (if is_v4 { Seq::<Seq<char>>::empty().push(ip@) } else { Seq::<Seq<char>>::empty() }));
                    assert(ev.1.1 =~= (if is_v4 { Seq::<Seq<char>>::empty() } else { Seq::<Seq<char>>::empty().push(ip@) }));
                    assert(groups_view(acc@) =~= v.push(ev));
                }
            },
        }
    }
    assert(av.take(n as int) =~= av);
    acc
}

/// What System Configuration knows about an interface.
#[derive(Debug)]
pub struct NativeMeta {
    pub mac: Option<String>,
    pub kind: Option<&'static str>,
}

/// One row of the network drawer.
#[derive(Debug)]
pub struct NetInterfaceInfo {
    pub name: String,
    pub is_up: bool,
    pub mac: Option<String>,
    pub ipv4: Vec<String>,
    pub ipv6: Vec<String>,
    /// Link speed in bits/s, if known.
    pub link_speed_bps: Option<u64>,
    pub rx_bytes_sec: u64,
    pub tx_bytes_sec: u64,
    pub mtu: Option<u32>,
    /// Coarse interface kind.
    pub kind: &'static str,
    /// Wi-Fi details, for wireless interfaces only.
    pub wireless: Option<WirelessInfo>,
}

/// A drawer row as the verifier sees it (Wi-Fi details aside).
pub struct IfaceModel {
    pub name: Seq<char>,
    pub is_up: bool,
    pub mac: Option<Seq<char>>,
    pub ipv4: Seq<Seq<char>>,
    pub ipv6: Seq<Seq<char>>,
    pub link_speed_bps: Option<u64>,
    pub rx: u64,
    pub tx: u64,
    pub mtu: Option<u32>,
    pub kind: Seq<char>,
}

pub open spec fn iface_model(i: NetInterfaceInfo) -> IfaceModel {
    IfaceModel {
        name: i.name@,
        is_up: i.is_up,
        mac: opt_string_view(i.mac),
        ipv4: i.ipv4.deep_view(),
        ipv6: i.ipv6.deep_view(),
        link_speed_bps: i.link_speed_bps,
        rx: i.rx_bytes_sec,
        tx: i.tx_bytes_sec,
        mtu: i.mtu,
        kind: i.kind@,
    }
}

pub open spec fn iface_models(r: Seq<NetInterfaceInfo>) -> Seq<IfaceModel> {
    r.map_values(|x: NetInterfaceInfo| iface_model(x))
}

pub open spec fn native_view(r: Seq<(String, NativeMeta)>) -> Seq<(Seq<char>, (Option<Seq<char>>, Option<Seq<char>>))> {
    Seq::new(r.len(), |i: int| (r[i].0@, (opt_string_view(r[i].1.mac), opt_str_view(r[i].1.kind))))
}

pub open spec fn rates_view(r: Seq<(String, u64, u64)>) -> Seq<(Seq<char>, (u64, u64))> {
    Seq::new(r.len(), |i: int| (r[i].0@, (r[i].1, r[i].2)))
}

/// The IPv4 addresses that are not link-local (`169.254.x.x`).
pub open spec fn global_v4(ips: Seq<Seq<char>>) -> Seq<Seq<char>>
    decreases ips.len(),
{
    if ips.len() == 0 {
        Seq::empty()
    } else if starts_with(ips.last(), "169.254."@) {
        global_v4(ips.drop_last())
    } else {
        global_v4(ips.drop_last()).push(ips.last())
    }
}

/// The drawer row for one interface, or `None` for one that is not shown:
/// no routable IPv4 address, loopback, or not up.
pub open spec fn iface_row(
    g: (Seq<char>, (Seq<Seq<char>>, Seq<Seq<char>>)),
    native: Seq<(Seq<char>, (Option<Seq<char>>, Option<Seq<char>>))>,
    ifc: Seq<(Seq<char>, IfcModel)>,
    rates: Seq<(Seq<char>, (u64, u64))>,
) -> Option<IfaceModel> {
    let name = g.0;
    let v4 = global_v4(g.1.0);
    let info = ifc_get(ifc, name);
    if v4.len() == 0 || name == "lo0"@ || !info.is_up {
        None
    } else {
        let meta = lookup(native, name);
        let (rx, tx) = match lookup(rates, name) {
            Some(r) => r,
            None => (0u64, 0u64),
        };
        let mac = match meta {
            Some(m) => if m.0 is Some {
                m.0
            } else {
                info.mac
            },
            None => info.mac,
        };
        let kind = match meta {
            Some(m) => match m.1 {
                Some(k) => k,
                None => name_kind(name),
            },
            None => name_kind(name),
        };
        Some(
            IfaceModel {
                name,
                is_up: true,
                mac,
                ipv4: v4,
                ipv6: g.1.1,
                link_speed_bps: info.link_speed_bps,
                rx,
                tx,
                mtu: info.mtu,
                kind,
            },
        )
    }
}

pub open spec fn iface_rows(
    gs: Seq<(Seq<char>, (Seq<Seq<char>>, Seq<Seq<char>>))>,
    native: Seq<(Seq<char>, (Option<Seq<char>>, Option<Seq<char>>))>,
    ifc: Seq<(Seq<char>, IfcModel)>,
    rates: Seq<(Seq<char>, (u64, u64))>,
) -> Seq<IfaceModel>
    decreases gs.len(),
{
    if gs.len() == 0 {
        Seq::empty()
    } else {
        match iface_row(gs.last(), native, ifc, rates) {
            Some(r) => iface_rows(gs.drop_last(), native, ifc, rates).push(r),
            None => iface_rows(gs.drop_last(), native, ifc, rates),
        }
    }
}

/// `a` may come before `b`: a better-ranked kind, or the same kind and a
/// name that is not greater.
pub open spec fn iface_before(a: IfaceModel, b: IfaceModel) -> bool {
    kind_rank_spec(a.kind) < kind_rank_spec(b.kind) || (kind_rank_spec(a.kind) == kind_rank_spec(b.kind)
        && !lex_lt(b.name, a.name))
}

/// Ethernet and Wi-Fi first, then VPN, bridge, the rest; alphabetical
/// within a kind.
pub open spec fn ifaces_sorted(s: Seq<IfaceModel>) -> bool {
    forall|a: int, b: int| 0 <= a < b < s.len() ==> iface_before(#[trigger] s[a], #[trigger] s[b])
}

proof fn lemma_before_transitive(a: IfaceModel, b: IfaceModel, c: IfaceModel)
    requires
        iface_before(a, b),
        iface_before(b, c),
    ensures
        iface_before(a, c),
{
    if kind_rank_spec(a.kind) == kind_rank_spec(b.kind) && kind_rank_spec(b.kind) == kind_rank_spec(c.kind) {
        if lex_lt(c.name, a.name) {
            lemma_lex_total(a.name, b.name);
            lemma_lex_total(b.name, c.name);
            if a.name == b.name {
            } else if b.name == c.name {
            } else {
                lemma_lex_transitive(a.name, b.name, c.name);
                lemma_lex_asymmetric(c.name, a.name);
            }
        }
    }
}

proof fn lemma_not_before(a: IfaceModel, b: IfaceModel)
    requires
        !iface_before(a, b),
    ensures
        iface_before(b, a),
{
    if kind_rank_spec(a.kind) == kind_rank_spec(b.kind) {
        lemma_lex_asymmetric(b.name, a.name);
    }
}

fn global_v4_of(ips: &Vec<String>) -> (r: Vec<String>)
    ensures
        r.deep_view() == global_v4(ips.deep_view()),
{
    let mut r: Vec<String> = Vec::new();
    let n = ips.len();
    for i in 0..n
        invariant
            n == ips@.len(),
            r.deep_view() == global_v4(ips.deep_view().take(i as int)),
    {
        assert(ips.deep_view().take(i + 1).drop_last() =~= ips.deep_view().take(i as int));
        assert(ips.deep_view().take(i + 1).last() == ips@[i as int]@);
        let cs = chars_of(ips[i].as_str());
        if !starts_with_str(cs.as_slice(), "169.254.") {
            let ghost before = r.deep_view();
            r.push(ips[i].clone());
            assert(r.deep_view() =~= before.push(ips@[i as int]@));
        }
    }
    assert(ips.deep_view().take(n as int) =~= ips.deep_view());
    r
}

/// A copy of a list of strings.
pub(crate) fn clone_strings(v: &Vec<String>) -> (r: Vec<String>)
    ensures
        r.deep_view() == v.deep_view(),
{
    let mut r: Vec<String> = Vec::new();
    let n = v.len();
    for i in 0..n
        invariant
            n == v@.len(),
            r.deep_view() == v.deep_view().take(i as int),
    {
        let ghost before = r.deep_view();
        r.push(v[i].clone());
        assert(r.deep_view() =~= before.push(v@[i as int]@));
        assert(v.deep_view().take(i + 1) =~= v.deep_view().take(i as int).push(v@[i as int]@));
    }
    assert(v.deep_view().take(n as int) =~= v.deep_view());
    r
}

fn clone_opt_string(o: &Option<String>) -> (r: Option<String>)
    ensures
        opt_string_view(r) == opt_string_view(*o),
{
    match o {
        Some(s) => Some(s.clone()),
        None => None,
    }
}

fn find_native(v: &Vec<(String, NativeMeta)>, name: &String) -> (r: Option<usize>)
    ensures
        match r {
            Some(i) => i < v@.len() && i as int == find_label(native_view(v@), name@),
            None => find_label(native_view(v@), name@) == -1,
        },
{
    let ghost w = native_view(v@);
    let mut i = v.len();
    assert(w.take(i as int) =~= w);
    while i > 0
        invariant
            i <= v@.len(),
            w == native_view(v@),
            find_label(w, name@) == find_label(w.take(i as int), name@),
        decreases i,
    {
        let ghost t = w.take(i as int);
        assert(t.drop_last() =~= w.take(i - 1));
        assert(t.last().0 == v@[i - 1].0@);
        if v[i - 1].0 == *name {
            return Some(i - 1);
        }
        i -= 1;
    }
    None
}

fn find_rate(v: &Vec<(String, u64, u64)>, name: &String) -> (r: Option<usize>)
    ensures
        match r {
            Some(i) => i < v@.len() && i as int == find_label(rates_view(v@), name@),
            None => find_label(rates_view(v@), name@) == -1,
        },
{
    let ghost w = rates_view(v@);
    let mut i = v.len();
    assert(w.take(i as int) =~= w);
    while i > 0
        invariant
            i <= v@.len(),
            w == rates_view(v@),
            find_label(w, name@) == find_label(w.take(i as int), name@),
        decreases i,
    {
        let ghost t = w.take(i as int);
        assert(t.drop_last() =~= w.take(i - 1));
        assert(t.last().0 == v@[i - 1].0@);
        if v[i - 1].0 == *name {
            return Some(i - 1);
        }
        i -= 1;
    }
    None
}

/// The drawer row for one address group, as [`iface_row`] describes it.
fn build_row(
    g: &(String, Vec<String>, Vec<String>),
    native: &Vec<(String, NativeMeta)>,
    ifc: &Vec<(String, IfcInfo)>,
    rates: &Vec<(String, u64, u64)>,
) -> (r: Option<NetInterfaceInfo>)
    ensures
        match iface_row(
            (g.0@, (g.1.deep_view(), g.2.deep_view())),
            native_view(native@),
            ifc_entries_view(ifc@),
            rates_view(rates@),
        ) {
            None => r is None,
            Some(m) => r is Some && iface_model(r->0) == m && (r->0).wireless is None,
        },
{
    let name = &g.0;
    let v4 = global_v4_of(&g.1);
    let name_chars = chars_of(name.as_str());
    let info = get_ifc(ifc, &name_chars);
    if v4.len() == 0 || crate::text::str_eq(name.as_str(), "lo0") || !info.is_up {
        return None;
    }
    let ghost nv = native_view(native@);
    let ghost rv = rates_view(rates@);
    proof {
        lemma_find_label_range(nv, name@);
        lemma_find_label_range(rv, name@);
    }
    let (rx, tx) = match find_rate(rates, name) {
        Some(i) => (rates[i].1, rates[i].2),
        None => (0, 0),
    };
    let (mac, kind) = match find_native(native, name) {
        Some(i) => {
            let m = &native[i].1;
            let mac = match &m.mac {
                Some(x) => Some(x.clone()),
                None => clone_opt_string(&info.mac),
            };
            let kind = match m.kind {
                Some(k) => k,
                None => classify_name_fallback(name.as_str()),
            };
            (mac, kind)
        },
        None => (clone_opt_string(&info.mac), classify_name_fallback(name.as_str())),
    };
    Some(NetInterfaceInfo {
        name: name.clone(),
        is_up: info.is_up,
        mac,
        ipv4: v4,
        ipv6: clone_strings(&g.2),
        link_speed_bps: info.link_speed_bps,
        rx_bytes_sec: rx,
        tx_bytes_sec: tx,
        mtu: info.mtu,
        kind,
        wireless: None,
    })
}

/// Whether `a` may be listed before `b`.
fn before_exec(a: &NetInterfaceInfo, b: &NetInterfaceInfo) -> (r: bool)
    ensures
        r == iface_before(iface_model(*a), iface_model(*b)),
{
    let ra = kind_rank(a.kind);
    let rb = kind_rank(b.kind);
    if ra < rb {
        true
    } else if ra == rb {
        let an = chars_of(a.name.as_str());
        let bn = chars_of(b.name.as_str());
        !lex_less(bn.as_slice(), an.as_slice())
    } else {
        false
    }
}

/// The interfaces worth showing, in display order.
///
/// `grouped` holds each interface's addresses (see [`group_addresses`]);
/// `native` what System Configuration says (MAC, kind); `ifconfig` what
/// [`parse_ifconfig`] read; `rates` the per-interface byte rates. An
/// interface is shown when it has a routable IPv4 address, is not loopback
/// and is up. Wi-Fi details are filled in later with [`apply_wifi`].
pub fn assemble_interfaces(
    grouped: &Vec<(String, Vec<String>, Vec<String>)>,
    native: &Vec<(String, NativeMeta)>,
    ifconfig: &Vec<(String, IfcInfo)>,
    rates: &Vec<(String, u64, u64)>,
) -> (r: Vec<NetInterfaceInfo>)
    ensures
        ifaces_sorted(iface_models(r@)),
        iface_models(r@).to_multiset() == iface_rows(
            groups_view(grouped@),
            native_view(native@),
            ifc_entries_view(ifconfig@),
            rates_view(rates@),
        ).to_multiset(),
        forall|k: int| 0 <= k < r@.len() ==> (#[trigger] r@[k]).wireless is None,
{
    let ghost gv = groups_view(grouped@);
    let ghost nv = native_view(native@);
    let ghost iv = ifc_entries_view(ifconfig@);
    let ghost rv = rates_view(rates@);
    let mut out: Vec<NetInterfaceInfo> = Vec::new();
    let n = grouped.len();
    proof {
        assert(iface_models(out@) =~= Seq::<IfaceModel>::empty());
    }
    for i in 0..n
        invariant
            n == grouped@.len(),
            gv == groups_view(grouped@),
            nv == native_view(native@),
            iv == ifc_entries_view(ifconfig@),
            rv == rates_view(rates@),
            ifaces_sorted(iface_models(out@)),
            iface_models(out@).to_multiset() == iface_rows(gv.take(i as int), nv, iv, rv).to_multiset(),
            forall|k: int| 0 <= k < out@.len() ==> (#[trigger] out@[k]).wireless is None,
    {
        assert(gv.take(i + 1).drop_last() =~= gv.take(i as int));
        assert(gv.take(i + 1).last() == gv[i as int]);
        match build_row(&grouped[i], native, ifconfig, rates) {
            None => {},
            Some(row) => {
                let mut pos: usize = 0;
                while pos < out.len() && before_exec(&out[pos], &row)
                    invariant
                        pos <= out@.len(),
                        forall|k: int| 0 <= k < pos ==> iface_before(#[trigger] iface_model(out@[k]), iface_model(row)),
                    decreases out@.len() - pos,
                {
                    pos += 1;
                }
                let ghost before = iface_models(out@);
                let ghost x = iface_model(row);
                proof {
                    assert forall|k: int| pos <= k < before.len() implies iface_before(x, #[trigger] before[k]) by {
                        lemma_not_before(before[pos as int], x);
                        if k > pos {
                            assert(iface_before(before[pos as int], before[k]));
                            lemma_before_transitive(x, before[pos as int], before[k]);
                        }
                    }
                }
                let ghost old_v = out@;
                let ghost row_v = row;
                out.insert(pos, row);
                proof {
                    let o = iface_models(out@);
                    assert(o =~= before.insert(pos as int, x));
                    assert forall|a: int, b: int| 0 <= a < b < o.len() implies iface_before(#[trigger] o[a], #[trigger] o[b]) by {
                        if b < pos {
                            assert(o[a] == before[a] && o[b] == before[b]);
                        } else if b == pos {
                            assert(o[a] == before[a]);
                        } else if a == pos {
                            assert(o[b] == before[b - 1]);
                        } else if a < pos {
                            assert(o[a] == before[a] && o[b] == before[b - 1]);
                            assert(iface_before(before[a], x));
                            assert(iface_before(x, before[b - 1]));
                            lemma_before_transitive(before[a], x, before[b - 1]);
                        } else {
                            assert(o[a] == before[a - 1] && o[b] == before[b - 1]);
                        }
                    }
                    vstd::seq_lib::to_multiset_insert(before, pos as int, x);
                    vstd::seq_lib::to_multiset_build(iface_rows(gv.take(i as int), nv, iv, rv), x);
                    assert forall|k: int| 0 <= k < out@.len() implies (#[trigger] out@[k]).wireless is None by {
                        if k < pos {
                            assert(out@[k] == old_v[k]);
                        } else if k > pos {
                            assert(out@[k] == old_v[k - 1]);
                        } else {
                            assert(out@[k] == row_v);
                        }
                    }
                }
            },
        }
    }
    assert(gv.take(n as int) =~= gv);
    out
}

/// [`WirelessInfo`] as the verifier sees it.
pub struct WirelessModel {
    pub ssid: Option<Seq<char>>,
    pub bssid: Option<Seq<char>>,
    pub channel: Option<u32>,
    pub band: Option<Seq<char>>,
    pub rssi_dbm: Option<i32>,
    pub noise_dbm: Option<i32>,
    pub tx_rate_mbps: Option<u32>,
    pub security: Option<Seq<char>>,
}

pub open spec fn wireless_model(w: WirelessInfo) -> WirelessModel {
    WirelessModel {
        ssid: opt_string_view(w.ssid),
        bssid: opt_string_view(w.bssid),
        channel: w.channel,
        band: opt_string_view(w.band),
        rssi_dbm: w.rssi_dbm,
        noise_dbm: w.noise_dbm,
        tx_rate_mbps: w.tx_rate_mbps,
        security: opt_string_view(w.security),
    }
}

pub open spec fn opt_wireless_model(w: Option<WirelessInfo>) -> Option<WirelessModel> {
    match w {
        Some(x) => Some(wireless_model(x)),
        None => None,
    }
}

/// A copy of Wi-Fi details.
pub fn copy_wireless(w: &WirelessInfo) -> (r: WirelessInfo)
    ensures
        wireless_model(r) == wireless_model(*w),
{
    WirelessInfo {
        ssid: clone_opt_string(&w.ssid),
        bssid: clone_opt_string(&w.bssid),
        channel: w.channel,
        band: clone_opt_string(&w.band),
        rssi_dbm: w.rssi_dbm,
        noise_dbm: w.noise_dbm,
        tx_rate_mbps: w.tx_rate_mbps,
        security: clone_opt_string(&w.security),
    }
}

/// Whether a row is a Wi-Fi interface.
pub open spec fn is_wifi_row(i: NetInterfaceInfo) -> bool {
    i.kind@ == "wifi"@
}

/// The rows that are Wi-Fi interfaces, in order: those that get Wi-Fi
/// details attached.
pub fn wifi_rows(ifaces: &Vec<NetInterfaceInfo>) -> (r: Vec<usize>)
    ensures
        forall|a: int, b: int| 0 <= a < b < r@.len() ==> r@[a] < r@[b],
        forall|a: int|
            0 <= a < r@.len() ==> r@[a] < ifaces@.len() && is_wifi_row(ifaces@[r@[a] as int]),
        forall|k: int| 0 <= k < ifaces@.len() && is_wifi_row(#[trigger] ifaces@[k]) ==> r@.contains(
            k as usize,
        ),
{
    let mut r: Vec<usize> = Vec::new();
    let mut k: usize = 0;
    while k < ifaces.len()
        invariant
            k <= ifaces@.len(),
            forall|a: int, b: int| 0 <= a < b < r@.len() ==> r@[a] < r@[b],
            forall|a: int| 0 <= a < r@.len() ==> r@[a] < k && is_wifi_row(ifaces@[r@[a] as int]),
            forall|m: int| 0 <= m < k && is_wifi_row(#[trigger] ifaces@[m]) ==> r@.contains(m as usize),
        decreases ifaces@.len() - k,
    {
        if crate::text::str_eq(ifaces[k].kind, "wifi") {
            let ghost before = r@;
            r.push(k);
            assert(forall|a: int| 0 <= a < before.len() ==> r@[a] == before[a]);
            assert(r@[before.len() as int] == k);
            assert forall|m: int| 0 <= m < k + 1 && is_wifi_row(#[trigger] ifaces@[m]) implies r@.contains(
                m as usize,
            ) by {
                if m < k {
                    let a = choose|a: int| 0 <= a < before.len() && before[a] == m as usize;
                    assert(r@[a] == m as usize);
                }
            }
        }
        k += 1;
    }
    r
}

/// Attach Wi-Fi details to a wireless interface. Wi-Fi has no stable
/// `media:` line, so when no link speed is known the negotiated transmit
/// rate stands in for it.
pub fn apply_wifi(iface: &mut NetInterfaceInfo, info: Option<WirelessInfo>)
    ensures
        opt_wireless_model(final(iface).wireless) == opt_wireless_model(info),
        final(iface).link_speed_bps == match old(iface).link_speed_bps {
            Some(l) => Some(l),
            None => match info {
                Some(w) => match w.tx_rate_mbps {
                    Some(m) => Some((m as u64 * 1_000_000) as u64),
                    None => None::<u64>,
                },
                None => None::<u64>,
            },
        },
        iface_model(*final(iface)) == (IfaceModel {
            link_speed_bps: final(iface).link_speed_bps,
            ..iface_model(*old(iface))
        }),
{
    if iface.link_speed_bps.is_none() {
        match &info {
            Some(w) => match w.tx_rate_mbps {
                Some(m) => {
                    iface.link_speed_bps = Some((m as u64) * 1_000_000);
                },
                None => {},
            },
            None => {},
        }
    }
    iface.wireless = info;
}

/// How long Wi-Fi details are reused before asking again, in ms.
pub const WIFI_CACHE_MS: u64 = 15000;

/// The last Wi-Fi details fetched, for which interface, and when.
pub struct WifiCache {
    entry: Option<(String, Option<WirelessInfo>, u64)>,
}

impl WifiCache {
    pub closed spec fn entry_view(&self) -> Option<(Seq<char>, Option<WirelessModel>, u64)> {
        match self.entry {
            Some(e) => Some((e.0@, opt_wireless_model(e.1), e.2)),
            None => None,
        }
    }

    pub fn new() -> (c: WifiCache)
        ensures
            c.entry_view() is None,
    {
        WifiCache { entry: None }
    }

    /// The cached details for `iface` when they were fetched for it less
    /// than [`WIFI_CACHE_MS`] before `now_ms`; `None` when they must be
    /// fetched again.
    pub fn lookup(&self, iface: &str, now_ms: u64) -> (r: Option<Option<WirelessInfo>>)
        ensures
            match self.entry_view() {
                Some((name, info, at)) => if name == iface@ && now_ms >= at && now_ms - at < WIFI_CACHE_MS {
                    r is Some && opt_wireless_model(r->0) == info
                } else {
                    r is None
                },
                None => r is None,
            },
    {
        match &self.entry {
            Some((name, info, at)) => {
                if crate::text::str_eq(name.as_str(), iface) && now_ms >= *at && now_ms - *at < WIFI_CACHE_MS {
                    let copy = match info {
                        Some(w) => Some(copy_wireless(w)),
                        None => None,
                    };
                    Some(copy)
                } else {
                    None
                }
            },
            None => None,
        }
    }

    /// Remember what was fetched for `iface` at `now_ms`.
    pub fn store(&mut self, iface: &str, info: &Option<WirelessInfo>, now_ms: u64)
        ensures
            final(self).entry_view() == Some((iface@, opt_wireless_model(*info), now_ms)),
    {
        let copy = match info {
            Some(w) => Some(copy_wireless(w)),
            None => None,
        };
        self.entry = Some((owned(iface), copy, now_ms));
    }
}

/// The associated network as `system_profiler SPAirPortDataType` reports
/// it, fields as found (strings where the report has strings).
#[derive(Debug)]
pub struct ProfilerNetwork {
    pub name: Option<String>,
    pub bssid: Option<String>,
    pub channel: Option<String>,
    pub signal_noise: Option<String>,
    /// Transmit rate, already a whole number of Mbps.
    pub rate_mbps: Option<u32>,
    pub security_mode: Option<String>,
}

/// One interface of the `system_profiler` report.
#[derive(Debug)]
pub struct ProfilerInterface {
    pub name: Option<String>,
    pub current: Option<ProfilerNetwork>,
}

/// A value unless it is the `<redacted>` placeholder macOS shows without
/// Location Services permission.
pub open spec fn unredacted(o: Option<Seq<char>>) -> Option<Seq<char>> {
    match o {
        Some(s) => if contains_seq(s, "redacted"@) {
            None
        } else {
            Some(s)
        },
        None => None,
    }
}

pub open spec fn opt_then_u32(o: Option<Seq<char>>) -> Option<u32> {
    match o {
        Some(s) => channel_spec(s),
        None => None,
    }
}

/// Wi-Fi details of interface `iface` from a `system_profiler` report:
/// `None` when the interface is not listed or has no associated network.
pub open spec fn profiler_wifi_spec(
    ifaces: Seq<(Option<Seq<char>>, Option<(Option<Seq<char>>, Option<Seq<char>>, Option<Seq<char>>, Option<Seq<char>>, Option<u32>, Option<Seq<char>>)>)>,
    iface: Seq<char>,
) -> Option<WirelessModel>
    decreases ifaces.len(),
{
    if ifaces.len() == 0 {
        None
    } else if ifaces[0].0 == Some(iface) {
        match ifaces[0].1 {
            None => None,
            Some((name, bssid, channel, sn, rate, sec)) => {
                let ch = opt_then_u32(channel);
                Some(
                    WirelessModel {
                        ssid: unredacted(name),
                        bssid: unredacted(bssid),
                        channel: ch,
                        band: match ch {
                            Some(c) => Some(band_spec(c)),
                            None => None,
                        },
                        rssi_dbm: match sn {
                            Some(x) => dbm_field(x, 0),
                            None => None,
                        },
                        noise_dbm: match sn {
                            Some(x) => dbm_field(x, 1),
                            None => None,
                        },
                        tx_rate_mbps: rate,
                        security: match sec {
                            Some(x) => Some(security_mode_spec(x)),
                            None => None,
                        },
                    },
                )
            },
        }
    } else {
        profiler_wifi_spec(ifaces.drop_first(), iface)
    }
}

pub open spec fn profiler_view(r: Seq<ProfilerInterface>) -> Seq<(Option<Seq<char>>, Option<(Option<Seq<char>>, Option<Seq<char>>, Option<Seq<char>>, Option<Seq<char>>, Option<u32>, Option<Seq<char>>)>)> {
    Seq::new(
        r.len(),
        |i: int|
            (
                opt_string_view(r[i].name),
                match r[i].current {
                    Some(c) => Some(
                        (
                            opt_string_view(c.name),
                            opt_string_view(c.bssid),
                            opt_string_view(c.channel),
                            opt_string_view(c.signal_noise),
                            c.rate_mbps,
                            opt_string_view(c.security_mode),
                        ),
                    ),
                    None => None,
                },
            ),
    )
}

fn unredacted_exec(o: &Option<String>) -> (r: Option<String>)
    ensures
        opt_string_view(r) == unredacted(opt_string_view(*o)),
{
    match o {
        Some(s) => {
            let cs = chars_of(s.as_str());
            if contains_str(cs.as_slice(), "redacted") {
                None
            } else {
                Some(s.clone())
            }
        },
        None => None,
    }
}

/// The fields of a `spairport_current_network_information` object.
pub open spec fn network_of(c: Json) -> (Option<Seq<char>>, Option<Seq<char>>, Option<Seq<char>>, Option<Seq<char>>, Option<u32>, Option<Seq<char>>) {
    (
        text_spec(c, "_name"@),
        text_spec(c, "spairport_network_bssid"@),
        text_spec(c, "spairport_network_channel"@),
        text_spec(c, "spairport_signal_noise"@),
        u32_spec(c, "spairport_network_rate"@),
        text_spec(c, "spairport_security_mode"@),
    )
}

/// One entry of `spairport_airport_interfaces`: its name and its current
/// network, when it has one.
pub open spec fn interface_of(i: Json) -> (Option<Seq<char>>, Option<(Option<Seq<char>>, Option<Seq<char>>, Option<Seq<char>>, Option<Seq<char>>, Option<u32>, Option<Seq<char>>)>) {
    (
        text_spec(i, "_name"@),
        match get_spec(i, "spairport_current_network_information"@) {
            Some(c) => Some(network_of(c)),
            None => None,
        },
    )
}

/// `SPAirPortDataType[0].spairport_airport_interfaces` of a report.
pub open spec fn airport_interfaces(report: Json) -> Option<Seq<Json>> {
    match get_spec(report, "SPAirPortDataType"@) {
        Some(Json::Array(a)) => if a@.len() > 0 {
            match get_spec(a@[0], "spairport_airport_interfaces"@) {
                Some(Json::Array(is)) => Some(is@),
                _ => None,
            }
        } else {
            None
        },
        _ => None,
    }
}

/// The interfaces of a `system_profiler SPAirPortDataType -json` report,
/// or `None` when the report does not have them where expected.
pub fn profiler_interfaces(report: &Json) -> (r: Option<Vec<ProfilerInterface>>)
    ensures
        match airport_interfaces(*report) {
            Some(is) => r matches Some(v) && profiler_view(v@) == is.map_values(
                |i: Json| interface_of(i),
            ),
            None => r is None,
        },
{
    let a = match get(report, "SPAirPortDataType") {
        Some(Json::Array(a)) => a,
        _ => {
            return None;
        },
    };
    if a.len() == 0 {
        return None;
    }
    let is = match get(&a[0], "spairport_airport_interfaces") {
        Some(Json::Array(is)) => is,
        _ => {
            return None;
        },
    };
    let mut out: Vec<ProfilerInterface> = Vec::new();
    let mut k: usize = 0;
    while k < is.len()
        invariant
            k <= is@.len(),
            out@.len() == k,
            profiler_view(out@) == is@.take(k as int).map_values(|i: Json| interface_of(i)),
        decreases is@.len() - k,
    {
        let i = &is[k];
        let current = match get(i, "spairport_current_network_information") {
            Some(c) => Some(
                ProfilerNetwork {
                    name: text_of(c, "_name"),
                    bssid: text_of(c, "spairport_network_bssid"),
                    channel: text_of(c, "spairport_network_channel"),
                    signal_noise: text_of(c, "spairport_signal_noise"),
                    rate_mbps: u32_of(c, "spairport_network_rate"),
                    security_mode: text_of(c, "spairport_security_mode"),
                },
            ),
            None => None,
        };
        let ghost before = out@;
        let text_of_name = text_of(i, "_name");
        out.push(ProfilerInterface { name: text_of_name, current });
        proof {
            let want = is@.take(k + 1).map_values(|i: Json| interface_of(i));
            assert forall|m: int| 0 <= m < k implies profiler_view(out@)[m] == want[m] by {
                assert(out@[m] == before[m]);
                assert(profiler_view(before)[m] == is@.take(k as int).map_values(
                    |i: Json| interface_of(i),
                )[m]);
                assert(is@.take(k as int)[m] == is@[m]);
                assert(is@.take(k + 1)[m] == is@[m]);
            }
            assert(is@.take(k + 1)[k as int] == is@[k as int]);
            assert(out@[k as int].name == text_of_name);
            assert(profiler_view(out@)[k as int].0 == interface_of(is@[k as int]).0);
            assert(profiler_view(out@)[k as int].1 == interface_of(is@[k as int]).1);
            assert(profiler_view(out@) =~= is@.take(k + 1).map_values(|i: Json| interface_of(i)));
        }
        k += 1;
    }
    assert(is@.take(is@.len() as int) =~= is@);
    Some(out)
}

/// Wi-Fi details for `iface` from a decoded `system_profiler` report.
pub fn wifi_info_from_report(report: &Json, iface: &str) -> (r: Option<WirelessInfo>)
    ensures
        opt_wireless_model(r) == match airport_interfaces(*report) {
            Some(is) => profiler_wifi_spec(is.map_values(|i: Json| interface_of(i)), iface@),
            None => None,
        },
{
    match profiler_interfaces(report) {
        Some(v) => wifi_info_from_profiler(&v, iface),
        None => None,
    }
}

/// Wi-Fi details for `iface` from the `system_profiler` report.
pub fn wifi_info_from_profiler(interfaces: &Vec<ProfilerInterface>, iface: &str) -> (r: Option<WirelessInfo>)
    ensures
        opt_wireless_model(r) == profiler_wifi_spec(profiler_view(interfaces@), iface@),
{
    let ghost pv = profiler_view(interfaces@);
    let n = interfaces.len();
    let mut i: usize = 0;
    assert(pv.skip(0) =~= pv);
    while i < n
        invariant
            i <= n == interfaces@.len(),
            pv == profiler_view(interfaces@),
            profiler_wifi_spec(pv, iface@) == profiler_wifi_spec(pv.skip(i as int), iface@),
        decreases n - i,
    {
        let ghost t = pv.skip(i as int);
        assert(t[0] == pv[i as int]);
        assert(t.drop_first() =~= pv.skip(i + 1));
        let entry = &interfaces[i];
        let matches = match &entry.name {
            Some(nm) => crate::text::str_eq(nm.as_str(), iface),
            None => false,
        };
        if matches {
            return match &entry.current {
                None => None,
                Some(c) => {
                    let channel = match &c.channel {
                        Some(x) => parse_channel(x.as_str()),
                        None => None,
                    };
                    let band = match channel {
                        Some(ch) => Some(channel_to_band(ch)),
                        None => None,
                    };
                    let rssi = match &c.signal_noise {
                        Some(x) => parse_rssi(x.as_str()),
                        None => None,
                    };
                    let noise = match &c.signal_noise {
                        Some(x) => parse_noise(x.as_str()),
                        None => None,
                    };
                    let security = match &c.security_mode {
                        Some(x) => Some(normalize_security(x.as_str())),
                        None => None,
                    };
                    Some(WirelessInfo {
                        ssid: unredacted_exec(&c.name),
                        bssid: unredacted_exec(&c.bssid),
                        channel,
                        band,
                        rssi_dbm: rssi,
                        noise_dbm: noise,
                        tx_rate_mbps: c.rate_mbps,
                        security,
                    })
                },
            };
        }
        i += 1;
    }
    None
}

} // verus!
