//! The HDHomeRun device that media servers (Plex, Emby, Jellyfin) discover.

use vstd::prelude::*;
use crate::text::{decimal, push_decimal, push_str};

verus! {

/// A device as it describes itself.
pub struct Device {
    pub friendly_name: String,
    pub manufacturer: String,
    pub model_number: String,
    pub model_name: String,
    pub firmware_name: String,
    pub tuner_count: u8,
    pub firmware_version: String,
    pub id: String,
    pub auth: String,
    pub base_url: String,
    pub lineup_url: String,
    pub discover_url: String,
}

/// The UPnP description of a device: its base url, then its names
/// (the model number stands as model name and number), then its id as
/// serial number and UDN.
pub open spec fn spec_device_xml(
    base_url: Seq<char>,
    friendly_name: Seq<char>,
    manufacturer: Seq<char>,
    model_number: Seq<char>,
    id: Seq<char>,
) -> Seq<char> {
    "<root xmlns=\"urn:schemas-upnp-org:device-1-0\">\n<specVersion>\n<major>1</major>\n<minor>0</minor>\n</specVersion>\n<URLBase>"@
        + base_url
        + "</URLBase>\n<device>\n  <deviceType>urn:dial-multicast:com.silicondust.hdhomerun</deviceType>\n  <friendlyName>"@
        + friendly_name
        + "</friendlyName>\n  <manufacturer>"@
        + manufacturer
        + "</manufacturer>\n  <modelName>"@
        + model_number
        + "</modelName>\n  <modelNumber>"@
        + model_number
        + "</modelNumber>\n  <serialNumber>"@
        + id
        + "</serialNumber>\n  <UDN>uuid:"@
        + id
        + "</UDN>\n</device>\n</root>"@
}

/// The url of a device: `{protocol}://{host}:{port}`.
pub open spec fn spec_device_url(protocol: Seq<char>, host: Seq<char>, port: u16) -> Seq<char> {
    protocol + "://"@ + host + seq![':'] + decimal(port as nat)
}

impl Device {
    /// The UPnP description of the device.
    pub fn as_xml(&self) -> (r: String)
        ensures
            r@ == spec_device_xml(self.base_url@, self.friendly_name@, self.manufacturer@, self.model_number@, self.id@),
    {
        let mut s = String::new();
        push_str(&mut s, "<root xmlns=\"urn:schemas-upnp-org:device-1-0\">\n<specVersion>\n<major>1</major>\n<minor>0</minor>\n</specVersion>\n<URLBase>");
        push_str(&mut s, self.base_url.as_str());
        push_str(&mut s, "</URLBase>\n<device>\n  <deviceType>urn:dial-multicast:com.silicondust.hdhomerun</deviceType>\n  <friendlyName>");
        push_str(&mut s, self.friendly_name.as_str());
        push_str(&mut s, "</friendlyName>\n  <manufacturer>");
        push_str(&mut s, self.manufacturer.as_str());
        push_str(&mut s, "</manufacturer>\n  <modelName>");
        push_str(&mut s, self.model_number.as_str());
        push_str(&mut s, "</modelName>\n  <modelNumber>");
        push_str(&mut s, self.model_number.as_str());
        push_str(&mut s, "</modelNumber>\n  <serialNumber>");
        push_str(&mut s, self.id.as_str());
        push_str(&mut s, "</serialNumber>\n  <UDN>uuid:");
        push_str(&mut s, self.id.as_str());
        push_str(&mut s, "</UDN>\n</device>\n</root>");
        s
    }

    /// The device served at `{protocol}://{host}:{port}`: one tuner, no
    /// authentication, its lineup and discovery documents under its url.
    pub fn create(
        friendly_name: &str,
        manufacturer: &str,
        model_number: &str,
        model_name: &str,
        firmware_name: &str,
        firmware_version: &str,
        device_udn: &str,
        protocol: &str,
        host: &str,
        port: u16,
    ) -> (r: Device)
        ensures
            r.friendly_name@ == friendly_name@,
            r.manufacturer@ == manufacturer@,
            r.model_number@ == model_number@,
            r.model_name@ == model_name@,
            r.firmware_name@ == firmware_name@,
            r.tuner_count == 1,
            r.firmware_version@ == firmware_version@,
            r.id@ == device_udn@,
            r.auth@ == Seq::<char>::empty(),
            r.base_url@ == spec_device_url(protocol@, host@, port),
            r.lineup_url@ == spec_device_url(protocol@, host@, port) + "/lineup.json"@,
            r.discover_url@ == spec_device_url(protocol@, host@, port) + "/discover.json"@,
    {
        let mut base_url = String::new();
        push_str(&mut base_url, protocol);
        push_str(&mut base_url, "://");
        push_str(&mut base_url, host);
        push_str(&mut base_url, ":");
        push_decimal(&mut base_url, port as u32);
        let mut lineup_url = base_url.clone();
        push_str(&mut lineup_url, "/lineup.json");
        let mut discover_url = base_url.clone();
        push_str(&mut discover_url, "/discover.json");
        proof {
            reveal_strlit(":");
            assert(base_url@ =~= spec_device_url(protocol@, host@, port));
        }
        Device {
            friendly_name: copy_str(friendly_name),
            manufacturer: copy_str(manufacturer),
            model_number: copy_str(model_number),
            model_name: copy_str(model_name),
            firmware_name: copy_str(firmware_name),
            tuner_count: 1,
            firmware_version: copy_str(firmware_version),
            id: copy_str(device_udn),
            auth: String::new(),
            base_url,
            lineup_url,
            discover_url,
        }
    }
}

/// An owned copy of a string.
fn copy_str(s: &str) -> (r: String)
    ensures
        r@ == s@,
{
    let mut r = String::new();
    push_str(&mut r, s);
    proof {
        assert(r@ =~= s@);
    }
    r
}

} // verus!
