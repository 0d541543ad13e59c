use vstd::prelude::*;

use crate::pipeline::IpInfo;

verus! {

/// The JSON shape of a lookup's result.
#[derive(Debug)]
pub struct OutputJson {
    pub ip: String,
    pub ip_number: String,
    pub ip_version: i32,
    pub isp: String,
    pub location: Location,
}

/// Where an address is, by country.
#[derive(Debug)]
pub struct Location {
    pub country_name: String,
    pub country_code: String,
}

impl From<IpInfo> for OutputJson {
    fn from(ip_info: IpInfo) -> OutputJson {
        OutputJson {
            ip: ip_info.ip,
            ip_number: ip_info.ip_number,
            ip_version: ip_info.ip_version,
            location: Location {
                country_name: ip_info.country_name,
                country_code: ip_info.country_code2,
            },
            isp: ip_info.isp,
        }
    }
}

impl vstd::std_specs::convert::FromSpecImpl<IpInfo> for OutputJson {
    open spec fn obeys_from_spec() -> bool {
        true
    }

    /// Keeps the address, its number, its version and the ISP, and gathers
    /// the country's name and code under `location`.
    open spec fn from_spec(ip_info: IpInfo) -> OutputJson {
        OutputJson {
            ip: ip_info.ip,
            ip_number: ip_info.ip_number,
            ip_version: ip_info.ip_version,
            location: Location {
                country_name: ip_info.country_name,
                country_code: ip_info.country_code2,
            },
            isp: ip_info.isp,
        }
    }
}

} // verus!
