use std::str::FromStr;

use usbipd_wsl::command_error::{CommandError, ErrorCode};
use usbipd_wsl::commands::{bind_device_args, command_outcome, parse_device_list, unbind_device_args};
use usbipd_wsl::error::Error;
use usbipd_wsl::runner::{decode_output, exit_failure, join_strings, le_units_of, quote, spawn_failure, wait_failure};
use usbipd_wsl::text::contains_str;
use usbipd_wsl::usb_device::{non_empty, parse_bool, UsbDevice};
use usbipd_wsl::usbipd::{
    check_registry_key, get_usbipd_powershell_script, select_devices_script, RegistryEntry,
    RegistryInfo, USBIPD, USBIPD4_GET_DEVICES_SCRIPT, USBIPD5_GET_DEVICES_SCRIPT,
    USBIPD_APP_NAME,
};
use usbipd_wsl::wsl::wsl_invocation;

const DEVICE_TEXT: &str = "BusId            : 1-2\n\
ClientIPAddress  :\n\
Description      : USB Input Device\n\
HardwareId       : 046d:c52b\n\
InstanceId       : USB\\VID_046D&PID_C52B\\5&2B5C3C4&0&2\n\
IsBound          : True\n\
IsConnected      : True\n\
IsForced         : False\n\
IsAttached       : False\n\
PersistedGuid    :\n\
StubInstanceId   :\n";

fn s(x: &str) -> String {
    x.to_string()
}

fn strings(v: &[&str]) -> Vec<String> {
    v.iter().map(|x| x.to_string()).collect()
}

#[test]
fn device_is_read_from_its_block() {
    let d = UsbDevice::from_str(DEVICE_TEXT).unwrap();
    assert_eq!(d.bus_id, Some(s("1-2")));
    assert_eq!(d.client_ip_address, None);
    assert_eq!(d.description, Some(s("USB Input Device")));
    assert_eq!(d.hardware_id, Some(s("046d:c52b")));
    assert_eq!(d.instance_id, Some(s("USB\\VID_046D&PID_C52B\\5&2B5C3C4&0&2")));
    assert!(d.is_bound);
    assert!(d.is_connected);
    assert!(!d.is_forced);
    assert!(!d.is_attached);
    assert_eq!(d.persisted_guid, None);
    assert_eq!(d.stub_instance_id, None);
}

#[test]
fn device_value_keeps_text_after_first_colon() {
    let d = UsbDevice::parse("ClientIPAddress : fe80::1 \nDescription:a:b").unwrap();
    assert_eq!(d.client_ip_address, Some(s("fe80::1")));
    assert_eq!(d.description, Some(s("a:b")));
}

#[test]
fn device_later_line_overrides_earlier() {
    let d = UsbDevice::parse("BusId : 1-1\nIsBound : true\nBusId : 2-3\nIsBound : no\n").unwrap();
    assert_eq!(d.bus_id, Some(s("2-3")));
    assert!(!d.is_bound);
    let d = UsbDevice::parse("BusId : 1-1\nBusId :\n").unwrap();
    assert_eq!(d.bus_id, None);
}

#[test]
fn device_ignores_unknown_and_colonless_lines() {
    let d = UsbDevice::parse("nothing here\nUnknownKey : value\n  busid : 1-1\n").unwrap();
    assert_eq!(d.bus_id, None);
    assert_eq!(d.instance_id, None);
    assert!(!d.is_bound && !d.is_connected && !d.is_forced && !d.is_attached);
}

#[test]
fn device_of_empty_text_is_empty() {
    let d = UsbDevice::parse("").unwrap();
    assert_eq!(d.bus_id, None);
    assert_eq!(d.hardware_id, None);
    assert!(!d.is_attached);
}

#[test]
fn device_lines_are_trimmed_with_crlf() {
    let d = UsbDevice::parse("\t IsAttached\u{3000}:  TRUE \r\nHardwareId : 1234:5678\r\n").unwrap();
    assert!(d.is_attached);
    assert_eq!(d.hardware_id, Some(s("1234:5678")));
}

#[test]
fn parse_bool_folds_ascii_case() {
    assert_eq!(parse_bool("true"), Ok(true));
    assert_eq!(parse_bool("TrUe"), Ok(true));
    assert_eq!(parse_bool("false"), Ok(false));
    assert_eq!(parse_bool("yes"), Ok(false));
    assert_eq!(parse_bool(""), Ok(false));
    assert_eq!(parse_bool(" true"), Ok(false));
    assert_eq!(parse_bool("truE\u{301}"), Ok(false));
}

#[test]
fn non_empty_separates_empty_text() {
    assert_eq!(non_empty(""), None);
    assert_eq!(non_empty("x"), Some(s("x")));
    assert_eq!(non_empty(" "), Some(s(" ")));
}

#[test]
fn device_list_is_split_at_blank_lines() {
    let output = format!(
        "\r\n{}\r\n   \r\nBusId : 3-4\nIsBound : True\n\n\n{}",
        DEVICE_TEXT, "InstanceId : X"
    );
    let devices = parse_device_list(&output);
    assert_eq!(devices.len(), 3);
    assert_eq!(devices[0].bus_id, Some(s("1-2")));
    assert_eq!(devices[1].bus_id, Some(s("3-4")));
    assert!(devices[1].is_bound);
    assert_eq!(devices[1].hardware_id, None);
    assert_eq!(devices[2].instance_id, Some(s("X")));
}

#[test]
fn device_list_of_blank_output_is_empty() {
    assert_eq!(parse_device_list("").len(), 0);
    assert_eq!(parse_device_list("\n \n\t\n").len(), 0);
}

#[test]
fn device_list_blank_line_at_end_changes_nothing() {
    let a = parse_device_list("BusId : 1-1\n");
    let b = parse_device_list("BusId : 1-1\n\n");
    assert_eq!(a.len(), 1);
    assert_eq!(b.len(), 1);
    assert_eq!(a[0].bus_id, b[0].bus_id);
}

#[test]
fn bind_and_unbind_arguments() {
    assert_eq!(bind_device_args("1234:5678", false), strings(&["bind", "--hardware-id", "1234:5678"]));
    assert_eq!(
        bind_device_args("1234:5678", true),
        strings(&["bind", "--hardware-id", "1234:5678", "--force"])
    );
    assert_eq!(unbind_device_args(Some("1234:5678")), strings(&["unbind", "--hardware-id", "1234:5678"]));
    assert_eq!(unbind_device_args(None), strings(&["unbind", "--all"]));
}

#[test]
fn command_outcome_is_true_or_the_error() {
    assert!(matches!(command_outcome(Ok(s("done"))), Ok(true)));
    let e = command_outcome(Err(CommandError::new(ErrorCode::InternalError, s("bad")))).unwrap_err();
    assert_eq!(e.code, ErrorCode::InternalError);
    assert_eq!(e.message, "bad");
}

#[test]
fn error_messages() {
    assert_eq!(Error::Unknown.message(), "Unknown error");
    assert_eq!(Error::UsbIPDNotFound.message(), "usbipd not found");
    assert_eq!(Error::UsbIPDLowVersion.message(), "usbipd version is too low");
    assert_eq!(Error::PowerShellError.message(), "PowerShell error occurred");
    assert_eq!(Error::WslNotRunning.message(), "WSL is not running");
}

#[test]
fn script_chosen_by_major_version() {
    assert_eq!(select_devices_script("4.3.0"), Ok(USBIPD4_GET_DEVICES_SCRIPT));
    assert_eq!(select_devices_script("4.0"), Ok(USBIPD4_GET_DEVICES_SCRIPT));
    assert_eq!(select_devices_script("5.0.0"), Ok(USBIPD5_GET_DEVICES_SCRIPT));
    assert_eq!(select_devices_script("+12.1"), Ok(USBIPD5_GET_DEVICES_SCRIPT));
    assert_eq!(select_devices_script("3.9.9"), Err(Error::UsbIPDLowVersion));
    assert_eq!(select_devices_script("4"), Err(Error::UsbIPDLowVersion));
    assert_eq!(select_devices_script(""), Err(Error::UsbIPDLowVersion));
    assert_eq!(select_devices_script("v5.0"), Err(Error::UsbIPDLowVersion));
    assert_eq!(select_devices_script("99999999999.0"), Err(Error::UsbIPDLowVersion));
    assert!(USBIPD4_GET_DEVICES_SCRIPT.contains("\\usbipd-win\\PowerShell\\Usbipd.Powershell.dll"));
    assert!(USBIPD5_GET_DEVICES_SCRIPT.ends_with("Get-UsbipdDevice"));
}

fn entry(name: Option<&str>, loc: Option<&str>, ver: Option<&str>) -> RegistryEntry {
    RegistryEntry {
        display_name: name.map(s),
        install_location: loc.map(s),
        display_version: ver.map(s),
        publisher: Some(s("dorssel")),
    }
}

fn info(loc: Option<&str>, ver: Option<&str>) -> RegistryInfo {
    RegistryInfo { install_location: loc.map(s), display_version: ver.map(s), publisher: None }
}

#[test]
fn registry_search_finds_first_match() {
    let entries = vec![
        entry(None, Some("nowhere"), Some("1.0")),
        entry(Some("Foo"), Some("C:\\Foo\\"), Some("2.0")),
        entry(Some("usbipd-win 4.3.0"), Some("C:\\Program Files\\usbipd-win\\"), Some("4.3.0")),
        entry(Some("usbipd-win"), Some("D:\\other\\"), Some("5.0.0")),
    ];
    let found = check_registry_key(&entries, USBIPD_APP_NAME).unwrap().unwrap();
    assert_eq!(found.install_location, Some(s("C:\\Program Files\\usbipd-win\\")));
    assert_eq!(found.display_version, Some(s("4.3.0")));
    assert_eq!(found.publisher, Some(s("dorssel")));
}

#[test]
fn registry_search_without_match_is_not_found() {
    let entries = vec![entry(Some("usbipd"), None, None), entry(None, None, None)];
    assert!(matches!(check_registry_key(&entries, USBIPD_APP_NAME), Err(Error::UsbIPDNotFound)));
    assert!(matches!(check_registry_key(&vec![], USBIPD_APP_NAME), Err(Error::UsbIPDNotFound)));
}

#[test]
fn substring_search() {
    assert!(contains_str("usbipd-win 4.3.0", "usbipd-win"));
    assert!(contains_str("abc", ""));
    assert!(!contains_str("usbipd-wi", "usbipd-win"));
    assert!(contains_str("xx\u{e9}yy", "\u{e9}y"));
}

#[test]
fn new_state_knows_nothing() {
    let u = USBIPD::new();
    assert!(u.needs_installation_check());
    assert_eq!(u.installation_path(), "");
    assert_eq!(u.version(), "");
    assert!(matches!(get_usbipd_powershell_script(&u), Err(Error::UsbIPDNotFound)));
    assert!(u.well_formed());
}

#[test]
fn installation_check_records_script() {
    let mut u = USBIPD::new();
    let primary = Some(info(Some("C:\\Program Files\\usbipd-win\\"), Some("4.3.0")));
    assert!(!u.needs_registry_fallback(&primary));
    assert_eq!(u.usbipd_installation_check(primary, None), Ok(true));
    assert!(!u.needs_installation_check());
    assert_eq!(u.installation_path(), "C:\\Program Files\\usbipd-win\\");
    assert_eq!(u.version(), "4.3.0");
    assert_eq!(get_usbipd_powershell_script(&u), Ok(s(USBIPD4_GET_DEVICES_SCRIPT)));
    // Known: a second check changes nothing.
    assert_eq!(u.usbipd_installation_check(None, None), Ok(true));
    assert_eq!(u.version(), "4.3.0");
    assert_eq!(get_usbipd_powershell_script(&u), Ok(s(USBIPD4_GET_DEVICES_SCRIPT)));
}

#[test]
fn installation_check_uses_fallback() {
    let mut u = USBIPD::new();
    let primary = Some(info(Some("C:\\x\\"), None));
    assert!(u.needs_registry_fallback(&primary));
    let r = u.usbipd_installation_check(primary, Some(Some(info(Some("C:\\y\\"), Some("5.1.0")))));
    assert_eq!(r, Ok(true));
    assert_eq!(u.installation_path(), "C:\\y\\");
    assert_eq!(get_usbipd_powershell_script(&u), Ok(s(USBIPD5_GET_DEVICES_SCRIPT)));
}

#[test]
fn installation_check_failures_keep_state() {
    let mut u = USBIPD::new();
    assert_eq!(u.usbipd_installation_check(None, None), Err(Error::UsbIPDNotFound));
    assert_eq!(u.usbipd_installation_check(None, Some(None)), Err(Error::UsbIPDNotFound));
    assert_eq!(
        u.usbipd_installation_check(Some(info(Some("C:\\x\\"), None)), Some(Some(info(None, Some("4.0"))))),
        Err(Error::UsbIPDNotFound)
    );
    assert_eq!(
        u.usbipd_installation_check(Some(info(Some("C:\\x\\"), Some("3.2.1"))), None),
        Err(Error::UsbIPDLowVersion)
    );
    assert!(u.needs_installation_check());
    assert_eq!(u.installation_path(), "");
}

#[test]
fn complete_primary_ignores_fallback() {
    let mut u = USBIPD::new();
    let r = u.usbipd_installation_check(Some(info(Some("C:\\a\\"), Some("4.1"))), None);
    assert_eq!(r, Ok(true));
    let mut w = USBIPD::new();
    let r = w.usbipd_installation_check(
        Some(info(Some("C:\\a\\"), Some("4.1"))),
        Some(Some(info(Some("C:\\b\\"), Some("5.0")))),
    );
    assert_eq!(r, Ok(true));
    assert_eq!(u.installation_path(), w.installation_path());
    assert_eq!(u.version(), w.version());
}

fn known_usbipd() -> USBIPD {
    let mut u = USBIPD::new();
    u.usbipd_installation_check(Some(info(Some("C:\\usbipd\\"), Some("4.3.0"))), None)
        .unwrap();
    u
}

#[test]
fn usbipd_runs_directly_when_allowed() {
    let u = known_usbipd();
    let command = strings(&["bind", "--hardware-id", "1234:5678"]);
    let (program, args) = u.usbipd_invocation(&command, false, false).unwrap();
    assert_eq!(program, "C:\\usbipd\\usbipd.exe");
    assert_eq!(args, command);
    let (program, args) = u.usbipd_invocation(&command, true, true).unwrap();
    assert_eq!(program, "C:\\usbipd\\usbipd.exe");
    assert_eq!(args, command);
}

#[test]
fn usbipd_is_elevated_through_powershell() {
    let u = known_usbipd();
    let command = strings(&["bind", "--hardware-id", "1234:5678", "--force"]);
    let (program, args) = u.usbipd_invocation(&command, true, false).unwrap();
    assert_eq!(program, "powershell.exe");
    assert_eq!(
        args,
        strings(&[
            "-NoProfile",
            "Start-Process",
            "\"C:\\usbipd\\usbipd.exe\"",
            "-ArgumentList",
            "\"bind --hardware-id 1234:5678 --force\"",
            "-WindowStyle",
            "Hidden",
            "-Verb",
            "RunAs",
        ])
    );
}

#[test]
fn usbipd_executable_is_in_installation_folder() {
    assert_eq!(known_usbipd().path(), Ok(s("C:\\usbipd\\usbipd.exe")));
    let mut u = USBIPD::new();
    assert_eq!(u.path(), Err(Error::UsbIPDNotFound));
    u.usbipd_installation_check(Some(info(Some("D:\\tools"), Some("5.0"))), None).unwrap();
    assert_eq!(u.path(), Ok(s("D:\\tools\\usbipd.exe")));
}

#[test]
fn usbipd_invocation_needs_installation() {
    let u = USBIPD::new();
    let e = u.usbipd_invocation(&strings(&["list"]), false, false).unwrap_err();
    assert_eq!(e.code, ErrorCode::UsbIPDNotFound);
    assert_eq!(e.message, "usbipd path not found.");
}

#[test]
fn joining_and_quoting() {
    assert_eq!(join_strings(&strings(&[]), " "), "");
    assert_eq!(join_strings(&strings(&["a"]), " "), "a");
    assert_eq!(join_strings(&strings(&["a", "b", "c"]), ", "), "a, b, c");
    assert_eq!(quote("x y"), "\"x y\"");
}

#[test]
fn program_failures() {
    let e = spawn_failure(Some(2), "No such file");
    assert_eq!(e.code, ErrorCode::CommandNotFound);
    assert_eq!(e.message, "Command not found");
    let e = spawn_failure(Some(5), "Access is denied");
    assert_eq!(e.code, ErrorCode::InternalError);
    assert_eq!(e.message, "Access is denied");
    let e = spawn_failure(None, "other");
    assert_eq!(e.code, ErrorCode::InternalError);
    let e = exit_failure("usbipd", "exit code: 1", "oops");
    assert_eq!(e.code, ErrorCode::InternalError);
    assert_eq!(e.message, "usbipd failed with status exit code: 1: oops");
    let e = wait_failure("gone");
    assert_eq!(e.message, "Failed to wait for child process: gone");
}

#[test]
fn output_decoding() {
    assert_eq!(decode_output("h\u{e9}llo".as_bytes(), false), "h\u{e9}llo");
    assert_eq!(decode_output(&[0x61, 0xff, 0x62], false), "a\u{fffd}b");
    assert_eq!(decode_output(&[0x41, 0x00, 0x42, 0x00], true), "AB");
    assert_eq!(decode_output(&[0x41, 0x00, 0x42], true), "A");
    assert_eq!(decode_output(&[0xe9, 0x00, 0x00, 0xd8], true), "\u{e9}\u{fffd}");
    assert_eq!(le_units_of(&[0x34, 0x12, 0xff]), vec![0x1234u16]);
    assert_eq!(decode_output(&[0x3d, 0xd8, 0x00, 0xde, 0x41, 0x00], true), "\u{1f600}A");
    assert_eq!(decode_output(&[0x00, 0xdc, 0x3d, 0xd8, 0x41, 0x00], true), "\u{fffd}\u{fffd}A");
}

#[test]
fn wsl_arguments() {
    let args = strings(&["--list", "--all", "--verbose"]);
    let (out, linux) = wsl_invocation(None, &args);
    assert_eq!(out, args);
    assert!(!linux);
    let (out, linux) = wsl_invocation(Some("Ubuntu"), &strings(&["usbip", "list"]));
    assert_eq!(
        out,
        strings(&["--distribution", "Ubuntu", "--user", "root", "--cd", "/", "--exec", "usbip", "list"])
    );
    assert!(linux);
}

const WSL_LIST: &str = "  NAME                   STATE           VERSION\r\n\
* Ubuntu-22.04           Stopped         2\r\n\
  docker-desktop         Running         2\r\n\
\r\n\
  Debian                 RUNNING         1\r\n";

#[test]
fn wsl_listing_is_read() {
    let u = USBIPD::new();
    let ds = u.get_all_wsl_distribution(WSL_LIST).unwrap();
    assert_eq!(ds.len(), 3);
    assert_eq!(ds[0].name, "Ubuntu-22.04");
    assert!(ds[0].is_default);
    assert!(!ds[0].running);
    assert_eq!(ds[0].wsl_version, Some(2));
    assert_eq!(ds[1].name, "docker-desktop");
    assert!(!ds[1].is_default);
    assert!(ds[1].running);
    assert_eq!(ds[2].name, "Debian");
    assert!(ds[2].running);
    assert_eq!(ds[2].wsl_version, Some(1));
}

#[test]
fn wsl_listing_odd_lines() {
    let u = USBIPD::new();
    let ds = u.get_all_wsl_distribution("header\n*Alpine Running x\nLonely\n*\n").unwrap();
    assert_eq!(ds.len(), 3);
    assert_eq!(ds[0].name, "Alpine");
    assert!(ds[0].is_default && ds[0].running);
    assert_eq!(ds[0].wsl_version, Some(0));
    assert_eq!(ds[1].name, "Lonely");
    assert!(!ds[1].running);
    assert_eq!(ds[1].wsl_version, Some(0));
    assert_eq!(ds[2].name, "");
    assert!(ds[2].is_default);
    let ds = u.get_all_wsl_distribution("header only").unwrap();
    assert_eq!(ds.len(), 0);
}

#[test]
fn wsl_empty_listing_is_refused() {
    let u = USBIPD::new();
    let e = u.get_all_wsl_distribution("").unwrap_err();
    assert_eq!(e.code, ErrorCode::WslDistributionNotFound);
    assert_eq!(e.message, "No distribution found");
    let e = u.get_default_or_first_running_wsl_distribution("").unwrap_err();
    assert_eq!(e.message, "No distribution found");
}

#[test]
fn first_running_distribution() {
    let u = USBIPD::new();
    assert_eq!(u.get_default_or_first_running_wsl_distribution(WSL_LIST).unwrap(), "docker-desktop");
    let e = u
        .get_default_or_first_running_wsl_distribution("NAME STATE VERSION\n* Ubuntu Stopped 2\n")
        .unwrap_err();
    assert_eq!(e.code, ErrorCode::WslDistributionNotFound);
    assert_eq!(e.message, "No running distribution found");
}

#[test]
fn device_list_whitespace_lines_at_start_and_between_blanks() {
    let base = "BusId : 1-1\nIsBound : true\n\nBusId : 2-2\n";
    let with_start = format!(" \t\n{}", base);
    let with_more = "BusId : 1-1\nIsBound : true\n\n  \n\u{3000}\nBusId : 2-2\n";
    for text in [base, with_start.as_str(), with_more] {
        let devices = parse_device_list(text);
        assert_eq!(devices.len(), 2);
        assert_eq!(devices[0].bus_id, Some(s("1-1")));
        assert!(devices[0].is_bound);
        assert_eq!(devices[1].bus_id, Some(s("2-2")));
    }
}

#[test]
fn device_list_last_block_without_blank_line() {
    let devices = parse_device_list("BusId : 5-1\r\nIsAttached : True");
    assert_eq!(devices.len(), 1);
    assert_eq!(devices[0].bus_id, Some(s("5-1")));
    assert!(devices[0].is_attached);
}

#[test]
fn device_list_whitespace_line_at_end() {
    let a = parse_device_list("BusId : 1-1\n");
    let b = parse_device_list("BusId : 1-1\n \t\n");
    assert_eq!(a.len(), 1);
    assert_eq!(b.len(), 1);
    assert_eq!(a[0].bus_id, b[0].bus_id);
}

#[test]
fn device_unknown_line_before_or_after() {
    let base = "BusId : 1-1\nIsBound : True";
    for text in [
        base.to_string(),
        format!("{}\n{}", base, "Vendor : Logitech"),
        format!("{}\n{}", "no colon here", base),
        format!("{}\n{}", base, ""),
    ] {
        let d = UsbDevice::parse(&text).unwrap();
        assert_eq!(d.bus_id, Some(s("1-1")));
        assert!(d.is_bound);
        assert_eq!(d.description, None);
    }
}
