use m3u_filter::hdhomerun::Device;

#[test]
fn device_urls_and_description() {
    let d = Device::create("HDHR", "Silicondust", "HDTC-2US", "HDHR5", "hdhomeruntc_atsc", "20200101", "dev-1", "http", "10.0.0.2", 5004);
    assert_eq!(d.base_url, "http://10.0.0.2:5004");
    assert_eq!(d.lineup_url, "http://10.0.0.2:5004/lineup.json");
    assert_eq!(d.discover_url, "http://10.0.0.2:5004/discover.json");
    assert_eq!(d.tuner_count, 1);
    assert_eq!(d.auth, "");
    assert_eq!(d.model_name, "HDHR5");
    let expected = format!(r#"<root xmlns="urn:schemas-upnp-org:device-1-0">
<specVersion>
<major>1</major>
<minor>0</minor>
</specVersion>
<URLBase>{}</URLBase>
<device>
  <deviceType>urn:dial-multicast:com.silicondust.hdhomerun</deviceType>
  <friendlyName>{}</friendlyName>
  <manufacturer>{}</manufacturer>
  <modelName>{}</modelName>
  <modelNumber>{}</modelNumber>
  <serialNumber>{}</serialNumber>
  <UDN>uuid:{}</UDN>
</device>
</root>"#, "http://10.0.0.2:5004", "HDHR", "Silicondust", "HDTC-2US", "HDTC-2US", "dev-1", "dev-1");
    assert_eq!(d.as_xml(), expected);
}
