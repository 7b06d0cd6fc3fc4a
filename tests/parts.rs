use nctrl::decimal::{parse_decimal, to_decimal};
use nctrl::pll::{gcd, optimal_pll_config};
use nctrl::registry::Registry;
use nctrl::script::{reset_steps, Action, Script, ScriptKind, Target};

#[test]
fn decimal_round_trip() {
    assert_eq!(to_decimal(0), b"0".to_vec());
    assert_eq!(to_decimal(907), b"907".to_vec());
    assert_eq!(to_decimal(u64::MAX), b"18446744073709551615".to_vec());
    assert_eq!(parse_decimal(&b"907\n".to_vec()), Some(907));
    assert_eq!(parse_decimal(&b"\n".to_vec()), None);
    assert_eq!(parse_decimal(&b"9 ".to_vec()), None);
    assert_eq!(parse_decimal(&b"007".to_vec()), Some(7));
}

#[test]
fn gcd_values() {
    assert_eq!(gcd(24000000, 588000000), 12000000);
    assert_eq!(gcd(7, 0), 7);
    assert_eq!(gcd(0, 9), 9);
    assert_eq!(gcd(12, 18), 6);
}

#[test]
fn pll_for_hispi_four_lanes() {
    assert_eq!(optimal_pll_config(24000000, 588000000), (2, 49));
    assert_eq!(optimal_pll_config(24000000, 100), (0, 0));
}

#[test]
fn registry_keeps_first_entry() {
    let mut r: Registry<u64> = Registry::new();
    assert!(r.add("a".to_string(), 1));
    assert!(!r.add("a".to_string(), 2));
    assert!(r.add("b".to_string(), 3));
    assert_eq!(r.find(&"b".to_string()), Some(1));
    assert_eq!(r.find(&"c".to_string()), None);
    assert_eq!(*r.get(0), 1);
    assert_eq!(r.names(), vec!["a".to_string(), "b".to_string()]);
}

#[test]
fn reset_plan_shape() {
    let steps = reset_steps();
    assert_eq!(steps.len(), 5);
    assert_eq!(steps[0].target, Target::SensorIo);
    assert!(matches!(steps[1].action, Action::Delay(10)));
    assert!(matches!(&steps[4].action, Action::Write(_, r, 1) if r == "stream"));
}

#[test]
fn kick_plan_uses_pll_settings() {
    let steps = Script::new(ScriptKind::Kick).steps();
    assert_eq!(steps.len(), 33);
    assert!(matches!(&steps[13].action, Action::Write(_, r, 2) if r == "pre_pll_clk_div"));
    assert!(matches!(&steps[14].action, Action::Write(_, r, 49) if r == "pll_multiplier"));
}

#[test]
fn scripts_describe_themselves() {
    assert_eq!(Script::new(ScriptKind::Kick).description(), "start up the sensor in default settings");
    assert_eq!(
        Script::new(ScriptKind::Reset).description(),
        "hard resets the sensor and brings it into standby\n"
    );
    let ar = Script::new(ScriptKind::ResetAr0331);
    assert_eq!(ar.kind(), ScriptKind::ResetAr0331);
    assert_eq!(ar.steps().len(), 5);
    assert_eq!(ar.listing(), vec!["test", "value"]);
    assert_eq!(Script::new(ScriptKind::Kick).listing(), vec!["value"]);
}

