use adbackup::backup::Backup;
use adbackup::devices::Device;

#[test]
fn test_parse_list_apps() {
        let mocked_output = "package:com.android.smoketest\n\
            package:com.android.cts.priv.ctsshim\npackage:org.cryptomator\n
            package:com.google.android.youtube\npackage:com.google.android.ext.services\n
            package:com.example.android.livecubes\npackage:com.android.providers.telephony\n
            package:com.google.android.googlequicksearchbox\npackage:com.android.provider.calendar\n
            package:com.android.providers.media\npackage:com.google.android.onetimeinitializer\n
            package:com.google.android.ext.shared\npackage:com.android.protips\n
            package:com.estrongs.android.pop\npackage:org.cryptomator.test\n
            package:com.dropbox.android\npackage:com.android.sdksetup\n
            package:com.ustwo.lwp\npackage:com.breel.geswallpapers";

        let mocked_apps = vec![
            "org.cryptomator".to_string(),
            "com.example.android.livecubes".to_string(),
            "com.estrongs.android.pop".to_string(),
            "org.cryptomator.test".to_string(),
            "com.dropbox.android".to_string(),
            "com.ustwo.lwp".to_string(),
            "com.breel.geswallpapers".to_string(),
        ];

        assert_eq!(
            Backup::parse_list_apps(mocked_output.to_string()),
            mocked_apps
        )
}

#[test]
fn test_parse_mocked_devices() {
        let devices = vec![
            Device {
                id: "emulator-5554".to_string(),
                details: "product:sdk_google_phone_x86 model:Android_SDK_built_for_x86 \
                          device:generic_x86 transport_id:9"
                    .to_string(),
            },
            Device {
                id: "192.168.2.100:5555".to_string(),
                details:
                "product:lineage_oneplus3 model:ONEPLUS_A3003 device:OnePlus3T transport_id:8"
                    .to_string(),
            },
        ];

        let mocked_output = "List of devices attached\nemulator-5554          \
            device product:sdk_google_phone_x86 model:Android_SDK_built_for_x86 device:generic_x86 \
            transport_id:9 \n192.168.2.100:5555     device product:lineage_oneplus3 model:\
            ONEPLUS_A3003 device:OnePlus3T transport_id:8\n\n".to_string();
        assert_eq!(Device::parse_devices(mocked_output), devices);
}

#[test]
fn test_parse_mocked_no_connected_device() {
        let mocked_output = "List of devices attached\n\n\n".to_string();
        assert_eq!(
            Device::parse_devices(mocked_output),
            Vec::new()
        );
}

#[test]
fn list_apps_takes_the_text_between_the_first_two_colons() {
    let listing = "package:org.one:extra\nno colon here\npackage:org.two".to_string();
    assert_eq!(
        Backup::parse_list_apps(listing),
        vec!["org.one".to_string(), "org.two".to_string()]
    );
}

#[test]
fn list_apps_of_an_empty_answer_is_empty() {
    assert_eq!(Backup::parse_list_apps(String::new()), Vec::<String>::new());
}

#[test]
fn list_apps_passes_over_platform_and_vendor_packages() {
    let listing = "package:com.android.x\npackage:com.google.android.y\npackage:com.google.z".to_string();
    assert_eq!(Backup::parse_list_apps(listing), vec!["com.google.z".to_string()]);
}

#[test]
fn devices_are_cut_at_the_next_occurrence_of_the_word() {
    let listing = "abc device one device two\r\nxyz\tdevice  d \n".to_string();
    assert_eq!(
        Device::parse_devices(listing),
        vec![
            Device { id: "abc".to_string(), details: "one".to_string() },
            Device { id: "xyz".to_string(), details: "d".to_string() },
        ]
    );
}

#[test]
fn a_line_without_the_word_describes_no_device() {
    let listing = "emulator-5554 offline\n".to_string();
    assert_eq!(Device::parse_devices(listing), Vec::new());
}

#[test]
fn the_heading_describes_no_device_even_with_the_word_in_it() {
    let listing = "List of devices attached device x\n".to_string();
    assert_eq!(Device::parse_devices(listing), Vec::new());
}
