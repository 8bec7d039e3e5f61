use process_monitor::manifest::{Manifest, Parameter};
use process_monitor::transport::{classify_reply, led_map_commands, Transport, TransportError, RGBA};
use process_monitor::util::{proc_exe_path, HexSlice};
use process_monitor::visualizers::{Percentage, Visualizer};

#[test]
fn hex_slice_writes_bytes_in_order() {
    let data: Vec<u8> = vec![0x00, 0x3f, 0xff];
    let hs = HexSlice::new(&data);
    assert_eq!(hs.to_hex_string(), "0x00, 0x3f, 0xff, ");
}

#[test]
fn hex_slice_of_nothing_is_empty() {
    let data: Vec<u8> = vec![];
    assert_eq!(HexSlice::new(&data).to_hex_string(), "");
}

#[test]
fn proc_exe_path_names_the_proc_entry() {
    assert_eq!(proc_exe_path(1234), "/proc/1234/exe");
    assert_eq!(proc_exe_path(0), "/proc/0/exe");
    assert_eq!(proc_exe_path(-7), "/proc/-7/exe");
}

#[test]
fn led_map_commands_number_keys_from_one() {
    let values = [
        RGBA { r: 255, g: 0, b: 0, a: 255 },
        RGBA { r: 1, g: 2, b: 3, a: 4 },
    ];
    assert_eq!(led_map_commands(&values), "1:255:0:0:255\n2:1:2:3:4\n");
}

#[test]
fn led_map_commands_of_nothing_is_empty() {
    let values: [RGBA; 0] = [];
    assert_eq!(led_map_commands(&values), "");
}

#[test]
fn replies_starting_with_bye_or_error_fail() {
    assert!(classify_reply(&"BYE".to_string()));
    assert!(classify_reply(&"ERROR: out of range".to_string()));
    assert!(!classify_reply(&"OK".to_string()));
    assert!(!classify_reply(&"".to_string()));
    assert!(!classify_reply(&"BY".to_string()));
}

#[test]
fn manifest_with_checksum_replaces_only_the_checksum() {
    let m = Manifest::new(
        "/usr/bin/game".to_string(),
        "old".to_string(),
        1,
        vec![Parameter {
            name: "speed".to_string(),
            description: "animation speed".to_string(),
            location: 3,
            default_color: 0x00FF00FF,
        }],
    );
    let saved = m.with_checksum("f00d".to_string());
    assert_eq!(saved.exe_file().as_str(), "/usr/bin/game");
    assert_eq!(saved.checksum().as_str(), "f00d");
    assert_eq!(m.checksum().as_str(), "old");
}

struct NullTransport;

impl Transport for NullTransport {
    fn connect(&mut self, _address: &String) -> Result<(), TransportError> {
        Ok(())
    }
    fn reconnect(&mut self) -> Result<(), TransportError> {
        Ok(())
    }
    fn is_connected(&self) -> bool {
        true
    }
    fn ping(&mut self) -> Result<(bool, String), TransportError> {
        Ok((true, "OK".to_string()))
    }
    fn send_led_map(&mut self, _values: &[RGBA]) -> Result<(), TransportError> {
        Ok(())
    }
}

#[test]
fn percentage_visualizer_reports_its_identity() {
    let mut p = Percentage::new();
    assert!(p.initialize().is_ok());
    assert_eq!(p.get_id(), "percentage");
    assert_eq!(p.get_name(), "Percentage");
    assert_eq!(p.get_description(), "Illuminates a certain percentage of the keyboard");
    let mut t = NullTransport;
    assert!(p.render(&mut t).is_ok());
}
