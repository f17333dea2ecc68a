use vstd::prelude::*;

verus! {

/// A discovered network device: an optional streaming endpoint and a
/// required management endpoint, both kept as URL strings.
#[derive(Clone, Debug, PartialEq, Eq)]
pub struct Device {
    /// Streaming endpoint, if one is known. `None` round-trips through the
    /// cache file as an empty value slot.
    pub url_rtsp: Option<String>,
    /// Management endpoint. A well-formed cache line always carries one.
    pub url_onvif: String,
}

/// The mathematical model of a `Device`: both fields as character sequences.
pub struct DeviceModel {
    pub url_rtsp: Option<Seq<char>>,
    pub url_onvif: Seq<char>,
}

impl View for Device {
    type V = DeviceModel;

    open spec fn view(&self) -> DeviceModel {
        DeviceModel {
            url_rtsp: match self.url_rtsp {
                Some(u) => Some(u@),
                None => None,
            },
            url_onvif: self.url_onvif@,
        }
    }
}

} // verus!
