//! Which power source is the internal battery, and what of it a snapshot
//! reports.
//!
//! IOPowerSources describes each power source as a dictionary; the caller
//! reads the fields named here into a [`PowerSource`], and AppleSmartBattery's
//! registry entry into a [`BatteryRegistryValues`]. The decisions are made on
//! those plain values. The charge percentage, health and power draw are
//! floating-point quantities the caller derives from the integers returned.
use vstd::prelude::*;
use crate::text::str_eq;

verus! {

/// The fields of one power-source description that the snapshot uses.
pub struct PowerSource {
    /// `Type`.
    pub kind: Option<String>,
    /// `Current Capacity`.
    pub current_capacity: Option<i64>,
    /// `Max Capacity`.
    pub max_capacity: Option<i64>,
    /// `Is Charging`.
    pub is_charging: Option<bool>,
    /// `Power Source State`.
    pub power_state: Option<String>,
    /// `Time to Full Charge`, in minutes.
    pub minutes_to_full: Option<i64>,
    /// `Time to Empty`, in minutes.
    pub minutes_to_empty: Option<i64>,
    /// `Voltage`, in millivolts.
    pub voltage_mv: Option<i64>,
    /// `Current`, in milliamperes.
    pub current_ma: Option<i64>,
}

/// What AppleSmartBattery's registry entry holds beyond the description.
pub struct BatteryRegistryValues {
    /// `CycleCount`.
    pub cycle_count: Option<i64>,
    /// `DesignCapacity`.
    pub design_capacity: Option<i64>,
    /// `AppleRawMaxCapacity`, else `MaxCapacity`.
    pub max_capacity: Option<i64>,
    /// `Voltage`, in millivolts.
    pub voltage_mv: Option<i64>,
    /// `InstantAmperage`, else `Amperage`, in milliamperes.
    pub amperage_ma: Option<i64>,
}

/// The internal battery's state, in integers.
#[derive(PartialEq, Eq, Structural)]
pub struct BatteryReading {
    pub current_capacity: i64,
    /// Always positive.
    pub max_capacity: i64,
    pub is_charging: bool,
    pub is_plugged_in: bool,
    pub time_remaining_sec: Option<u32>,
    pub cycle_count: Option<u32>,
    /// From the description, else from the registry.
    pub voltage_mv: Option<i64>,
    /// From the description, else from the registry.
    pub amperage_ma: Option<i64>,
}

pub open spec fn is_internal_battery(p: PowerSource) -> bool {
    p.kind matches Some(k) && k@ == "InternalBattery"@
}

/// Where the search for the internal battery stops: at a description that
/// could not be read, or at the internal battery.
pub open spec fn stops_search(o: Option<PowerSource>) -> bool {
    match o {
        None => true,
        Some(p) => is_internal_battery(p),
    }
}

/// A count of minutes as seconds: `None` when negative or beyond `u32`,
/// saturating at `u32::MAX`.
pub open spec fn seconds_left(minutes: Option<i64>) -> Option<u32> {
    match minutes {
        Some(m) => if 0 <= m <= u32::MAX {
            Some(if m * 60 > u32::MAX { u32::MAX } else { (m * 60) as u32 })
        } else {
            None
        },
        None => None,
    }
}

/// `v` as a `u32`, when it fits.
pub open spec fn as_u32(v: Option<i64>) -> Option<u32> {
    match v {
        Some(x) => if 0 <= x <= u32::MAX {
            Some(x as u32)
        } else {
            None
        },
        None => None,
    }
}

pub open spec fn or_else(a: Option<i64>, b: Option<i64>) -> Option<i64> {
    match a {
        Some(x) => Some(x),
        None => b,
    }
}

/// What the snapshot reports of the source the search stopped at.
pub open spec fn reading_of(o: Option<PowerSource>, reg: BatteryRegistryValues) -> Option<
    BatteryReading,
> {
    match o {
        None => None,
        Some(p) => match (p.current_capacity, p.max_capacity) {
            (Some(c), Some(m)) => if m <= 0 {
                None
            } else {
                let charging = p.is_charging == Some(true);
                Some(
                    BatteryReading {
                        current_capacity: c,
                        max_capacity: m,
                        is_charging: charging,
                        is_plugged_in: p.power_state matches Some(s) && s@ == "AC Power"@,
                        time_remaining_sec: seconds_left(
                            if charging {
                                p.minutes_to_full
                            } else {
                                p.minutes_to_empty
                            },
                        ),
                        cycle_count: as_u32(reg.cycle_count),
                        voltage_mv: or_else(p.voltage_mv, reg.voltage_mv),
                        amperage_ma: or_else(p.current_ma, reg.amperage_ma),
                    },
                )
            },
            _ => None,
        },
    }
}

/// The battery counts as plugged in exactly when its power source state is
/// `AC Power`, whether or not it is charging: a full battery on the charger
/// is plugged in and not charging.
pub proof fn law_plugged_in_is_ac_power(
    p: PowerSource,
    reg: BatteryRegistryValues,
    charging: Option<bool>,
)
    ensures
        reading_of(Some(p), reg) matches Some(r) ==> (r.is_plugged_in <==> (p.power_state matches Some(
            s,
        ) && s@ == "AC Power"@)),
        reading_of(Some(p), reg) is Some ==> ({
            let q = (PowerSource { is_charging: charging, ..p });
            &&& reading_of(Some(q), reg) is Some
            &&& reading_of(Some(q), reg)->0.is_plugged_in == reading_of(Some(p), reg)->0.is_plugged_in
        }),
{
}

/// Seconds until full while charging, or until empty otherwise, from the
/// minutes the description gives.
pub fn time_remaining_sec(minutes: Option<i64>) -> (r: Option<u32>)
    ensures
        r == seconds_left(minutes),
{
    match minutes {
        Some(m) => {
            if m < 0 || m > 4294967295 {
                None
            } else {
                let m32 = m as u32;
                if m32 > u32::MAX / 60 {
                    Some(u32::MAX)
                } else {
                    Some(m32 * 60)
                }
            }
        },
        None => None,
    }
}

fn or_else_i64(a: Option<i64>, b: Option<i64>) -> (r: Option<i64>)
    ensures
        r == or_else(a, b),
{
    match a {
        Some(x) => Some(x),
        None => b,
    }
}

fn reading(p: &PowerSource, reg: &BatteryRegistryValues) -> (r: Option<BatteryReading>)
    ensures
        r == reading_of(Some(*p), *reg),
{
    let (current, maximum) = match (p.current_capacity, p.max_capacity) {
        (Some(c), Some(m)) => (c, m),
        _ => {
            return None;
        },
    };
    if maximum <= 0 {
        return None;
    }
    let is_charging = match p.is_charging {
        Some(b) => b,
        None => false,
    };
    let is_plugged_in = match &p.power_state {
        Some(s) => str_eq(s.as_str(), "AC Power"),
        None => false,
    };
    let minutes = if is_charging {
        p.minutes_to_full
    } else {
        p.minutes_to_empty
    };
    let cycle_count = match reg.cycle_count {
        Some(v) => {
            if v < 0 || v > 4294967295 {
                None
            } else {
                Some(v as u32)
            }
        },
        None => None,
    };
    Some(
        BatteryReading {
            current_capacity: current,
            max_capacity: maximum,
            is_charging,
            is_plugged_in,
            time_remaining_sec: time_remaining_sec(minutes),
            cycle_count,
            voltage_mv: or_else_i64(p.voltage_mv, reg.voltage_mv),
            amperage_ma: or_else_i64(p.current_ma, reg.amperage_ma),
        },
    )
}

/// The internal battery among `sources`, in the order IOPowerSources lists
/// them; `None` for a source whose description could not be read.
///
/// The search stops at the first internal battery or unreadable
/// description. There is nothing to report when it stops at an unreadable
/// description, when no source is the internal battery, or when the
/// battery's capacities are missing or its maximum is not positive.
pub fn read_internal_battery(
    sources: &Vec<Option<PowerSource>>,
    reg: &BatteryRegistryValues,
) -> (r: Option<BatteryReading>)
    ensures
        (forall|j: int| 0 <= j < sources@.len() ==> !stops_search(#[trigger] sources@[j]))
            ==> r is None,
        forall|i: int|
            0 <= i < sources@.len() && stops_search(#[trigger] sources@[i]) && (forall|j: int|
                0 <= j < i ==> !stops_search(sources@[j])) ==> r == reading_of(sources@[i], *reg),
{
    let mut i: usize = 0;
    while i < sources.len()
        invariant
            i <= sources@.len(),
            forall|j: int| 0 <= j < i ==> !stops_search(#[trigger] sources@[j]),
        decreases sources@.len() - i,
    {
        match &sources[i] {
            None => {
                proof {
                    assert forall|k: int|
                        0 <= k < sources@.len() && stops_search(#[trigger] sources@[k]) && (
                        forall|j: int| 0 <= j < k ==> !stops_search(sources@[j])) implies k
                        == i by {
                        if k > i {
                            assert(!stops_search(sources@[i as int]));
                        }
                    }
                }
                return None;
            },
            Some(p) => {
                let internal = match &p.kind {
                    Some(k) => str_eq(k.as_str(), "InternalBattery"),
                    None => false,
                };
                if internal {
                    proof {
                        assert forall|k: int|
                            0 <= k < sources@.len() && stops_search(#[trigger] sources@[k]) && (
                            forall|j: int| 0 <= j < k ==> !stops_search(sources@[j])) implies k
                            == i by {
                            if k > i {
                                assert(!stops_search(sources@[i as int]));
                            }
                        }
                    }
                    return reading(p, reg);
                }
            },
        }
        i += 1;
    }
    None
}

} // verus!
