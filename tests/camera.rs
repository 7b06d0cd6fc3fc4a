use nctrl::camera::Camera;
use nctrl::device::{Access, Bus, Device};
use nctrl::error::{Entry, FsError};
use nctrl::front::{Op, Route};
use std::cell::RefCell;
use std::rc::Rc;

type Log = Rc<RefCell<Vec<String>>>;

/// A bus that records every call and fails the calls it was told to fail.
struct RecordingBus {
    device: String,
    log: Log,
    fail_on: Option<String>,
}

impl Bus for RecordingBus {
    fn read(&mut self, access: Access, register: &String) -> Result<u64, FsError> {
        self.log.borrow_mut().push(format!("{} read {:?} {}", self.device, access, register));
        if self.fail_on.as_deref() == Some(register.as_str()) {
            return Err(FsError::HardwareIo(register.clone()));
        }
        Ok(0)
    }

    fn write(&mut self, access: Access, register: &String, value: u64) -> Result<(), FsError> {
        self.log.borrow_mut().push(format!("{} write {:?} {} {}", self.device, access, register, value));
        if self.fail_on.as_deref() == Some(register.as_str()) {
            return Err(FsError::HardwareIo(register.clone()));
        }
        Ok(())
    }

    fn delay(&mut self, millis: u64) {
        self.log.borrow_mut().push(format!("{} delay {}", self.device, millis));
    }
}

fn path(p: &str) -> Vec<String> {
    if p.is_empty() {
        return Vec::new();
    }
    p.split('/').map(|s| s.to_string()).collect()
}

fn device(name: &str, registers: &[(&str, u64)], log: &Log, fail_on: Option<&str>) -> Device<RecordingBus> {
    let bus = RecordingBus { device: name.to_string(), log: log.clone(), fail_on: fail_on.map(|s| s.to_string()) };
    let mut d = Device::new(name.to_string(), bus);
    for (r, v) in registers {
        assert!(d.add_register(r.to_string(), *v));
    }
    d
}

fn micro_r2(log: &Log, fail_on: Option<&str>) -> Camera<RecordingBus> {
    let mut cam = Camera::new("micro_r2".to_string());
    assert!(cam.add_device(device("sensor", &[("software_reset", 1), ("stream", 0)], log, fail_on)));
    assert!(cam.add_device(device("sensor_io", &[("reset", 0)], log, fail_on)));
    cam
}

fn listing(r: Result<Entry, FsError>) -> Vec<String> {
    match r {
        Ok(Entry::Directory(v)) => v,
        _ => panic!("expected a directory listing"),
    }
}

fn content(r: Result<Entry, FsError>) -> Vec<u8> {
    match r {
        Ok(Entry::Content(c)) => c,
        _ => panic!("expected leaf content"),
    }
}

fn not_found_name<T>(r: Result<T, FsError>) -> String {
    match r {
        Err(FsError::NotFound(n)) => n,
        _ => panic!("expected NotFound"),
    }
}

fn is_unsupported<T>(r: &Result<T, FsError>) -> bool {
    matches!(r, Err(FsError::Unsupported(_, _)))
}

#[test]
fn scripts_listing_of_micro_r2() {
    let log = Log::default();
    let mut cam = micro_r2(&log, None);
    let mut names = listing(cam.read(&path("scripts")));
    names.sort();
    assert_eq!(names, vec!["kick".to_string(), "reset".to_string()]);
}

#[test]
fn top_level_listing() {
    let log = Log::default();
    let mut cam = micro_r2(&log, None);
    assert_eq!(listing(cam.read(&path(""))), vec!["camera_model", "devices", "scripts"]);
    assert_eq!(content(cam.read(&path("camera_model"))), b"micro_r2".to_vec());
    assert_eq!(listing(cam.read(&path("devices"))), vec!["sensor", "sensor_io"]);
}

#[test]
fn unknown_model_has_no_scripts() {
    let mut cam: Camera<RecordingBus> = Camera::new("other".to_string());
    assert!(listing(cam.read(&path("scripts"))).is_empty());
}

#[test]
fn script_listing_ends_with_value() {
    let log = Log::default();
    let mut cam = micro_r2(&log, None);
    assert_eq!(listing(cam.read(&path("scripts/reset"))), vec!["test", "value"]);
    assert_eq!(listing(cam.read(&path("scripts/kick"))), vec!["value"]);
}

#[test]
fn trigger_is_a_file() {
    let log = Log::default();
    let cam = micro_r2(&log, None);
    assert!(matches!(cam.is_dir(&path("scripts/reset/value")), Ok(false)));
    assert!(matches!(cam.is_dir(&path("scripts/reset")), Ok(true)));
    assert!(matches!(cam.is_dir(&path("scripts/kick/value")), Ok(false)));
    assert!(matches!(cam.is_dir(&path("scripts")), Ok(true)));
    assert!(matches!(cam.is_dir(&path("")), Ok(true)));
    assert!(matches!(cam.is_dir(&path("camera_model")), Ok(false)));
    assert!(matches!(cam.is_dir(&path("devices/sensor")), Ok(true)));
    assert!(matches!(cam.is_dir(&path("devices/sensor/stream")), Ok(false)));
    assert!(matches!(cam.is_dir(&path("scripts/reset/test")), Ok(false)));
}

#[test]
fn reset_runs_its_sequence_in_order() {
    let log = Log::default();
    let mut cam = micro_r2(&log, None);
    assert!(cam.write(&path("scripts/reset/value"), &vec![1]).is_ok());
    assert_eq!(
        *log.borrow(),
        vec![
            "sensor_io write Raw reset 1",
            "sensor_io delay 10",
            "sensor_io write Raw reset 0",
            "sensor write Cooked software_reset 0",
            "sensor write Cooked stream 1",
        ]
    );
}

#[test]
fn reset_stops_at_the_first_failure() {
    let log = Log::default();
    let mut cam = micro_r2(&log, Some("software_reset"));
    let r = cam.write(&path("scripts/reset/value"), &vec![1]);
    assert!(matches!(r, Err(FsError::HardwareIo(_))));
    assert_eq!(
        *log.borrow(),
        vec![
            "sensor_io write Raw reset 1",
            "sensor_io delay 10",
            "sensor_io write Raw reset 0",
            "sensor write Cooked software_reset 0",
        ]
    );
}

#[test]
fn each_trigger_write_runs_the_script_once() {
    let log = Log::default();
    let mut cam = micro_r2(&log, None);
    assert!(cam.write(&path("scripts/reset/value"), &vec![1]).is_ok());
    assert!(cam.write(&path("scripts/reset/value"), &b"anything".to_vec()).is_ok());
    assert_eq!(log.borrow().len(), 10);
}

#[test]
fn trigger_payload_is_not_kept() {
    let log = Log::default();
    let mut cam = micro_r2(&log, None);
    assert!(is_unsupported(&cam.read(&path("scripts/reset/value"))));
    assert!(cam.write(&path("scripts/reset/value"), &b"42".to_vec()).is_ok());
    assert!(is_unsupported(&cam.read(&path("scripts/reset/value"))));
    assert_eq!(content(cam.read(&path("scripts/reset/test"))), b"0".to_vec());
}

#[test]
fn trigger_without_sensor_names_the_missing_device() {
    let mut cam: Camera<RecordingBus> = Camera::new("micro_r2".to_string());
    assert_eq!(not_found_name(cam.write(&path("scripts/reset/value"), &vec![1])), "sensor");
    let log = Log::default();
    assert!(cam.add_device(device("sensor", &[], &log, None)));
    assert_eq!(not_found_name(cam.write(&path("scripts/kick/value"), &vec![1])), "sensor_io");
}

#[test]
fn writes_to_fixed_nodes_are_unsupported() {
    let log = Log::default();
    let mut cam = micro_r2(&log, None);
    assert!(is_unsupported(&cam.write(&path("camera_model"), &b"x".to_vec())));
    assert!(is_unsupported(&cam.write(&path("devices"), &b"1".to_vec())));
    assert!(is_unsupported(&cam.write(&path("scripts"), &b"1".to_vec())));
    assert!(is_unsupported(&cam.write(&path(""), &b"1".to_vec())));
    assert!(is_unsupported(&cam.write(&path("devices/sensor"), &b"1".to_vec())));
    assert!(is_unsupported(&cam.write(&path("scripts/reset"), &b"1".to_vec())));
}

#[test]
fn unknown_entries_are_not_found() {
    let log = Log::default();
    let mut cam = micro_r2(&log, None);
    assert_eq!(not_found_name(cam.read(&path("devices/nope"))), "nope");
    assert_eq!(not_found_name(cam.read(&path("scripts/nope"))), "nope");
    assert_eq!(not_found_name(cam.write(&path("devices/nope/x"), &b"1".to_vec())), "nope");
    assert_eq!(not_found_name(cam.write(&path("scripts/nope/value"), &b"1".to_vec())), "nope");
    assert_eq!(not_found_name(cam.is_dir(&path("scripts/nope/value"))), "nope");
    assert_eq!(not_found_name(cam.read(&path("lenses"))), "lenses");
    assert_eq!(not_found_name(cam.write(&path("lenses"), &b"1".to_vec())), "lenses");
    assert_eq!(not_found_name(cam.read(&path("devices/sensor/gain"))), "gain");
    assert_eq!(not_found_name(cam.read(&path("camera_model/x"))), "x");
}

#[test]
fn write_to_absent_device_names_it() {
    let log = Log::default();
    let mut cam = micro_r2(&log, None);
    assert_eq!(not_found_name(cam.write(&path("devices/sensorX/reg"), &b"1".to_vec())), "sensorX");
}

#[test]
fn mock_reads_defaults_then_writes() {
    let log = Log::default();
    let mut cam = micro_r2(&log, None);
    cam.mocked(true);
    assert_eq!(content(cam.read(&path("devices/sensor/software_reset"))), b"1".to_vec());
    assert!(cam.write(&path("devices/sensor/stream"), &b"1234\n".to_vec()).is_ok());
    assert_eq!(content(cam.read(&path("devices/sensor/stream"))), b"1234".to_vec());
    assert_eq!(content(cam.read(&path("devices/sensor/software_reset"))), b"1".to_vec());
    assert!(log.borrow().is_empty());
}

#[test]
fn mock_reset_updates_memory() {
    let log = Log::default();
    let mut cam = micro_r2(&log, None);
    cam.mocked(true);
    assert!(cam.write(&path("scripts/reset/value"), &vec![1]).is_ok());
    assert_eq!(content(cam.read(&path("devices/sensor/software_reset"))), b"0".to_vec());
    assert_eq!(content(cam.read(&path("devices/sensor/stream"))), b"1".to_vec());
    assert_eq!(content(cam.read(&path("devices/sensor_io/reset"))), b"0".to_vec());
    assert_eq!(*log.borrow(), vec!["sensor_io delay 10"]);
}

#[test]
fn mock_kick_stops_at_missing_register() {
    let log = Log::default();
    let mut cam = micro_r2(&log, None);
    cam.mocked(true);
    assert_eq!(not_found_name(cam.write(&path("scripts/kick/value"), &vec![1])), "magic_init_config");
    assert_eq!(content(cam.read(&path("devices/sensor_io/reset"))), b"7".to_vec());
}

#[test]
fn unmocked_device_uses_bus() {
    let log = Log::default();
    let mut cam = micro_r2(&log, None);
    cam.mocked(true);
    cam.mocked(false);
    assert_eq!(content(cam.read(&path("devices/sensor/stream"))), b"0".to_vec());
    assert_eq!(*log.borrow(), vec!["sensor read Cooked stream"]);
}

#[test]
fn bad_payloads_are_rejected() {
    let log = Log::default();
    let mut cam = micro_r2(&log, None);
    cam.mocked(true);
    let r = cam.write(&path("devices/sensor/stream"), &b"12a".to_vec());
    assert!(is_unsupported(&r));
    let r = cam.write(&path("devices/sensor/stream"), &b"".to_vec());
    assert!(is_unsupported(&r));
    let r = cam.write(&path("devices/sensor/stream"), &b"18446744073709551616".to_vec());
    assert!(is_unsupported(&r));
    assert!(cam.write(&path("devices/sensor/stream"), &b"18446744073709551615".to_vec()).is_ok());
    let r = cam.write(&path("scripts/reset/test"), &b"256".to_vec());
    assert!(is_unsupported(&r));
    assert!(cam.write(&path("scripts/reset/test"), &b"255\n".to_vec()).is_ok());
    assert_eq!(content(cam.read(&path("scripts/reset/test"))), b"255".to_vec());
}

#[test]
fn duplicate_device_is_refused() {
    let log = Log::default();
    let mut cam = micro_r2(&log, None);
    assert!(!cam.add_device(device("sensor", &[], &log, None)));
}

fn routed(cam: Camera<RecordingBus>) -> nctrl::front::Shape {
    cam.into_parts().0
}

#[test]
fn route_sends_requests_to_their_entries() {
    let log = Log::default();
    let (shape, devices, scripts) = micro_r2(&log, None).into_parts();
    assert_eq!(devices.len(), 2);
    assert_eq!(devices[1].name(), "sensor_io");
    assert_eq!(scripts.len(), 2);
    assert!(matches!(shape.route(&path("devices/sensor_io/reset"), Op::Read), Route::Device(1)));
    assert!(matches!(shape.route(&path("scripts/kick"), Op::Read), Route::ScriptListing(1)));
    assert!(matches!(shape.route(&path("scripts/kick"), Op::IsDir), Route::ScriptField(1)));
    assert!(matches!(shape.route(&path("scripts/reset/test"), Op::Write), Route::ScriptField(0)));
    assert!(matches!(shape.route(&path("scripts/reset/value"), Op::Read), Route::ScriptRead(0)));
    assert!(matches!(shape.route(&path("scripts/reset/value"), Op::IsDir), Route::Answer(false)));
    assert!(matches!(shape.route(&path("scripts/kick/value"), Op::Write), Route::Trigger(1, 0, 1)));
    assert!(matches!(shape.route(&path("camera_model"), Op::Write), Route::Fail(FsError::Unsupported(_, _))));
    assert!(matches!(shape.route(&path("devices"), Op::Write), Route::Fail(FsError::Unsupported(_, _))));
    assert!(matches!(shape.route(&path("scripts"), Op::Write), Route::Fail(FsError::Unsupported(_, _))));
    match shape.route(&path("devices/sensorX/reg"), Op::Write) {
        Route::Fail(FsError::NotFound(n)) => assert_eq!(n, "sensorX"),
        _ => panic!("expected NotFound"),
    }
    match shape.route(&path("camera_model"), Op::Read) {
        Route::Content(c) => assert_eq!(c, b"micro_r2".to_vec()),
        _ => panic!("expected content"),
    }
    match shape.route(&path("scripts"), Op::Read) {
        Route::Listing(v) => assert_eq!(v, vec!["reset", "kick"]),
        _ => panic!("expected a listing"),
    }
    assert_eq!(scripts[0].listing(), vec!["test", "value"]);
}

#[test]
fn route_trigger_needs_both_devices() {
    let log = Log::default();
    let mut cam: Camera<RecordingBus> = Camera::new("micro_r2".to_string());
    assert!(cam.add_device(device("sensor", &[], &log, None)));
    match routed(cam).route(&path("scripts/reset/value"), Op::Write) {
        Route::Fail(FsError::NotFound(n)) => assert_eq!(n, "sensor_io"),
        _ => panic!("expected NotFound"),
    }
}
