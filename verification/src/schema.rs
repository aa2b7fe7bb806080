//! Value rules of the TOML input files: what a field's raw value must be,
//! and the message that refuses it.
//!
//! The TOML reader hands each raw value to these functions while it reads a
//! file, so a refused value is reported as a parse error of that file, with
//! the message below.

use vstd::prelude::*;

use crate::aic::{PowerConfig, Region};
use crate::strings::{decimal, i64_to_decimal, push_str, signed_decimal, str_eq, string_of};

verus! {

/// Region used when `aic.toml` names none.
pub fn default_region() -> (r: Region)
    ensures
        r == Region::FourthValley,
{
    Region::FourthValley
}

/// The `aic.toml` format version written when the file names none.
pub fn default_aic_version() -> (v: u32)
    ensures
        v == 2,
{
    2
}

/// Power is enabled unless `power.enabled` says otherwise.
pub fn default_power_enabled() -> (b: bool)
    ensures
        b,
{
    true
}

/// External power production (W) assumed when power is enabled and the file
/// names none.
pub const DEFAULT_EXTERNAL_PRODUCTION_W: u32 = 200;

/// The message that refuses a region name.
pub open spec fn invalid_region_message(value: Seq<char>) -> Seq<char> {
    "invalid region `"@ + value + "`, expected one of: fourth_valley, wuling"@
}

/// Reads a region name: `fourth_valley` or `wuling`.
pub fn parse_region(value: &str) -> (r: Result<Region, String>)
    ensures
        value@ == "fourth_valley"@ ==> r == Ok::<Region, String>(Region::FourthValley),
        value@ == "wuling"@ ==> r == Ok::<Region, String>(Region::Wuling),
        value@ != "fourth_valley"@ && value@ != "wuling"@ ==> (r matches Err(m) && m@
            == invalid_region_message(value@)),
{
    proof {
        reveal_strlit("fourth_valley");
        reveal_strlit("wuling");
        assert("fourth_valley"@.len() != "wuling"@.len());
    }
    if str_eq(value, "fourth_valley") {
        Ok(Region::FourthValley)
    } else if str_eq(value, "wuling") {
        Ok(Region::Wuling)
    } else {
        let mut m = string_of("invalid region `");
        push_str(&mut m, value);
        push_str(&mut m, "`, expected one of: fourth_valley, wuling");
        Err(m)
    }
}

/// The message that refuses a value below a lower bound.
pub open spec fn below_message(bound: Seq<char>, value: int) -> Seq<char> {
    "must be >= "@ + bound + ", got "@ + signed_decimal(value)
}

/// The message that refuses a value above `u32::MAX`.
pub open spec fn out_of_range_message(value: int) -> Seq<char> {
    "out of range for u32: "@ + signed_decimal(value)
}

fn below(bound: &str, value: i64) -> (m: String)
    ensures
        m@ == below_message(bound@, value as int),
{
    let mut m = string_of("must be >= ");
    push_str(&mut m, bound);
    push_str(&mut m, ", got ");
    let d = i64_to_decimal(value);
    push_str(&mut m, d.as_str());
    m
}

fn out_of_range(value: i64) -> (m: String)
    ensures
        m@ == out_of_range_message(value as int),
{
    let mut m = string_of("out of range for u32: ");
    let d = i64_to_decimal(value);
    push_str(&mut m, d.as_str());
    m
}

/// Reads a count that must be at least 1 and fit in a `u32`.
pub fn parse_positive_u32(value: i64) -> (r: Result<u32, String>)
    ensures
        1 <= value <= u32::MAX ==> r == Ok::<u32, String>(value as u32),
        value < 1 ==> (r matches Err(m) && m@ == below_message("1"@, value as int)),
        value > u32::MAX ==> (r matches Err(m) && m@ == out_of_range_message(value as int)),
{
    if value < 1 {
        return Err(below("1", value));
    }
    if value > 4294967295i64 {
        return Err(out_of_range(value));
    }
    Ok(value as u32)
}

/// Reads a count that must be at least 0 and fit in a `u32`.
pub fn parse_non_negative_u32(value: i64) -> (r: Result<u32, String>)
    ensures
        0 <= value <= u32::MAX ==> r == Ok::<u32, String>(value as u32),
        value < 0 ==> (r matches Err(m) && m@ == below_message("0"@, value as int)),
        value > u32::MAX ==> (r matches Err(m) && m@ == out_of_range_message(value as int)),
{
    if value < 0 {
        return Err(below("0", value));
    }
    if value > 4294967295i64 {
        return Err(out_of_range(value));
    }
    Ok(value as u32)
}

/// The message that refuses an `aic.toml` version other than 2.
pub open spec fn unsupported_version_message(version: nat) -> Seq<char> {
    "unsupported aic version `"@ + decimal(version) + "`, expected 2"@
}

/// Reads the `aic.toml` format version; only version 2 is supported.
pub fn parse_supported_aic_version(value: i64) -> (r: Result<u32, String>)
    ensures
        value == 2 ==> r == Ok::<u32, String>(2),
        value < 0 ==> (r matches Err(m) && m@ == below_message("0"@, value as int)),
        value > u32::MAX ==> (r matches Err(m) && m@ == out_of_range_message(value as int)),
        0 <= value <= u32::MAX && value != 2 ==> (r matches Err(m) && m@
            == unsupported_version_message(value as nat)),
{
    let parsed = match parse_non_negative_u32(value) {
        Ok(v) => v,
        Err(m) => return Err(m),
    };
    if parsed == 2 {
        Ok(2)
    } else {
        let mut m = string_of("unsupported aic version `");
        let d = i64_to_decimal(value);
        proof {
            assert(signed_decimal(value as int) == decimal(value as nat));
        }
        push_str(&mut m, d.as_str());
        push_str(&mut m, "`, expected 2");
        Err(m)
    }
}

/// The message that refuses two different values for the external
/// consumption and its misspelt alias.
pub open spec fn power_conflict_message() -> Seq<char> {
    "power.external_consumption and power.enternal_consumption conflict"@
}

/// The message that refuses external power figures when power is disabled.
pub open spec fn power_disabled_message() -> Seq<char> {
    "power.external_production/power.external_consumption are not allowed when power.enabled = false"@
}

/// What the `[power]` section means, from its raw fields: the external
/// consumption may also be written under the misspelt alias
/// `enternal_consumption`, provided both agree.
pub open spec fn power_section(
    enabled: bool,
    external_production: Option<u32>,
    external_consumption: Option<u32>,
    enternal_consumption: Option<u32>,
) -> Option<PowerConfig> {
    let consumption = match external_consumption {
        Some(v) => Some(v),
        None => enternal_consumption,
    };
    if external_consumption is Some && enternal_consumption is Some
        && external_consumption != enternal_consumption {
        None
    } else if !enabled {
        if external_production is Some || consumption is Some {
            None
        } else {
            Some(PowerConfig::Disabled)
        }
    } else {
        Some(
            PowerConfig::Enabled {
                external_production_w: match external_production {
                    Some(v) => v,
                    None => DEFAULT_EXTERNAL_PRODUCTION_W,
                },
                external_consumption_w: match consumption {
                    Some(v) => v,
                    None => 0,
                },
            },
        )
    }
}

/// How the `[power]` section reads, on its raw fields: with power enabled,
/// the external consumption is `external_consumption` when given (the
/// misspelt alias absent or agreeing), else the alias, else 0, and the
/// external production is the given one, else 200 W; two different
/// consumptions conflict; with power disabled, no figure may be given.
pub proof fn law_power_section_fields(
    enabled: bool,
    external_production: Option<u32>,
    external_consumption: Option<u32>,
    enternal_consumption: Option<u32>,
)
    ensures
        enabled && (enternal_consumption is None || enternal_consumption == external_consumption) ==> (match external_consumption {
            Some(c) => power_section(enabled, external_production, external_consumption, enternal_consumption)
                matches Some(PowerConfig::Enabled { external_production_w, external_consumption_w })
                && external_consumption_w == c && external_production_w == (match external_production {
                Some(p) => p,
                None => 200u32,
            }),
            None => true,
        }),
        enabled && external_consumption is None ==> (power_section(
            enabled,
            external_production,
            external_consumption,
            enternal_consumption,
        ) matches Some(PowerConfig::Enabled { external_production_w, external_consumption_w })
            && external_consumption_w == (match enternal_consumption {
            Some(a) => a,
            None => 0u32,
        }) && external_production_w == (match external_production {
            Some(p) => p,
            None => 200u32,
        })),
        (external_consumption matches Some(c) && enternal_consumption matches Some(a) && c != a) ==> power_section(
            enabled,
            external_production,
            external_consumption,
            enternal_consumption,
        ) is None,
        !enabled ==> power_section(enabled, external_production, external_consumption, enternal_consumption)
            == (if external_production is None && external_consumption is None && enternal_consumption is None {
            Some(PowerConfig::Disabled)
        } else {
            None
        }),
{
}

/// Reads the `[power]` section from its raw fields.
pub fn resolve_power(
    enabled: bool,
    external_production: Option<u32>,
    external_consumption: Option<u32>,
    enternal_consumption: Option<u32>,
) -> (r: Result<PowerConfig, String>)
    ensures
        enabled && external_consumption is Some && (enternal_consumption is None || enternal_consumption
            == external_consumption) ==> (r matches Ok(PowerConfig::Enabled { external_consumption_w, .. })
            && Some(external_consumption_w) == external_consumption),
        enabled && external_consumption is None ==> (r matches Ok(PowerConfig::Enabled { external_consumption_w, .. })
            && external_consumption_w == (match enternal_consumption {
            Some(a) => a,
            None => 0,
        })),
        match power_section(enabled, external_production, external_consumption, enternal_consumption) {
            Some(p) => r == Ok::<PowerConfig, String>(p),
            None => r matches Err(m) && ({
                if external_consumption is Some && enternal_consumption is Some
                    && external_consumption != enternal_consumption {
                    m@ == power_conflict_message()
                } else {
                    m@ == power_disabled_message()
                }
            }),
        },
{
    let consumption = match (external_consumption, enternal_consumption) {
        (Some(value), Some(alias)) => {
            if value != alias {
                return Err(
                    string_of(
                        "power.external_consumption and power.enternal_consumption conflict",
                    ),
                );
            }
            Some(value)
        },
        (Some(value), None) => Some(value),
        (None, Some(alias)) => Some(alias),
        (None, None) => None,
    };
    if !enabled {
        if external_production.is_some() || consumption.is_some() {
            return Err(
                string_of(
                    "power.external_production/power.external_consumption are not allowed when power.enabled = false",
                ),
            );
        }
        return Ok(PowerConfig::Disabled);
    }
    let production_w = match external_production {
        Some(v) => v,
        None => DEFAULT_EXTERNAL_PRODUCTION_W,
    };
    let consumption_w = match consumption {
        Some(v) => v,
        None => 0,
    };
    Ok(
        PowerConfig::Enabled {
            external_production_w: production_w,
            external_consumption_w: consumption_w,
        },
    )
}

} // verus!
