//! Locations and the parameters of one evaluation.
use crate::network::NetworkKey;
use vstd::prelude::*;
use vstd::string::StringSliceAdditionalSpecFns;

verus! {

/// A location (site) of the name server deployment.
#[allow(non_camel_case_types)]
#[derive(Clone, Copy, Debug, PartialEq, Eq, Structural, PartialOrd, Ord, Hash)]
pub enum Location {
    xxx,
}

impl Location {
    /// The combinations of location and destination for which data is
    /// available, as `<location>_<destination>`.
    pub fn logical_dsts() -> (r: [&'static str; 1])
        ensures
            r[0]@ == "xxx_198.51.100.1"@,
    {
        ["xxx_198.51.100.1"]
    }

    /// The best training length observed for the location.
    pub fn best_train_length(&self) -> (r: u8)
        ensures
            *self == Location::xxx ==> r == 24,
    {
        match self {
            Location::xxx => 24,
        }
    }

    /// The name of the location.
    pub fn name(&self) -> (r: &'static str)
        ensures
            *self == Location::xxx ==> r@ == "xxx"@,
    {
        match self {
            Location::xxx => "xxx",
        }
    }

    /// The location with the given name, if any.
    pub fn from_name(s: &str) -> (r: Option<Location>)
        ensures
            r == Some(Location::xxx) <==> s.spec_bytes() == seq![0x78u8, 0x78u8, 0x78u8],
            r is None <==> s.spec_bytes() != seq![0x78u8, 0x78u8, 0x78u8],
    {
        let b = s.as_bytes();
        if b.len() == 3 && b[0] == 0x78 && b[1] == 0x78 && b[2] == 0x78 {
            assert(b@ =~= seq![0x78u8, 0x78u8, 0x78u8]);
            Some(Location::xxx)
        } else {
            None
        }
    }
}

/// The parameters of one evaluation.
#[derive(Clone, Copy, Debug, PartialEq, Eq, Structural, PartialOrd, Ord, Hash)]
pub struct DataConfiguration {
    pub location: Location,
    /// The anycast destination network.
    pub iprange_dst: NetworkKey,
    /// First interval of the training window, from 1.
    pub window_start: u32,
    /// Intervals in the training window.
    pub train_length: u8,
    /// Intervals in the test window, which follows the training window.
    pub test_length: u8,
    /// Minimum active intervals for a network to be allowlisted.
    pub min_active: u8,
    /// Minimum average packets for a network to be allowlisted.
    pub min_pkts_avg: u32,
    /// Packets per interval let through for a network that is not allowlisted.
    pub low_pass: u32,
    /// Multiple of the training traffic let through for an allowlisted
    /// network, in thousandths.
    pub above_train_limit: u32,
}

} // verus!
