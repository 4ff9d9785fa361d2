use sassytalkie::device_checks::{emulator_indicator_paths, root_indicator_paths, DeviceFacts};
use sassytalkie::security::{
    decode_string, parse_i32, run_startup_checks, work_profile_indicated, ProfileChecker, ProfileFacts, ProfileType,
    ProfileViolation, SecurityChecker, SecurityViolation,
};

#[test]
fn test_profile_checker_init() {
    let checker = ProfileChecker::new(0, false);
    println!("User info: {}", checker.get_user_info());
}

#[test]
fn test_work_profile_detection() {
    let is_work = work_profile_indicated(false, None);
    println!("Is work profile: {}", is_work);
    assert!(!is_work);
}

#[test]
fn test_security_checker() {
    let checker = SecurityChecker::new();
    let status = Some("Name:\tapp\nState:\tR (running)\nTracerPid:\t0\nUid:\t1000\n".to_string());
    assert!(checker.check_debugger(&status).is_ok());
    assert!(checker.verify_signature().is_ok());
    assert!(checker.verify_integrity().is_ok());
    assert!(checker.check_memory_integrity().is_ok());
    assert!(run_startup_checks().is_ok());
}

#[test]
fn user_info_names_id_and_type() {
    assert_eq!(ProfileChecker::new(0, false).get_user_info(), "User ID: 0, Type: Primary");
    assert_eq!(ProfileChecker::new(10, false).get_user_info(), "User ID: 10, Type: Secondary");
    assert_eq!(ProfileChecker::new(11, true).get_user_info(), "User ID: 11, Type: WorkProfile");
    assert_eq!(ProfileChecker::new(-3, false).get_user_info(), "User ID: -3, Type: Unknown");
}

#[test]
fn profile_types_follow_user_id() {
    assert_eq!(ProfileChecker::detect_profile_type(0, true), ProfileType::Primary);
    assert_eq!(ProfileChecker::detect_profile_type(10, true), ProfileType::WorkProfile);
    assert_eq!(ProfileChecker::detect_profile_type(10, false), ProfileType::Secondary);
    assert_eq!(ProfileChecker::detect_profile_type(5, false), ProfileType::Unknown);
    assert!(ProfileChecker::new(0, false).is_safe_environment());
    assert!(!ProfileChecker::new(10, false).is_safe_environment());
}

#[test]
fn work_profile_signs() {
    assert!(work_profile_indicated(true, None));
    assert!(work_profile_indicated(false, Some("<policies><managedProfile/></policies>")));
    assert!(work_profile_indicated(false, Some("deviceOwner")));
    assert!(!work_profile_indicated(false, Some("<policies/>")));
}

#[test]
fn clipboard_keyboard_and_accessibility_checks() {
    let primary = ProfileChecker::new(0, false);
    let secondary = ProfileChecker::new(10, false);
    let maps = Some("7f00 r-xp libclipboard.so".to_string());
    assert!(primary.check_clipboard_access(&maps).is_ok());
    assert!(matches!(secondary.check_clipboard_access(&maps), Err(ProfileViolation::CrossProfileClipboard)));
    assert!(matches!(ProfileChecker::new(10, true).check_clipboard_access(&None), Err(ProfileViolation::WorkProfileDetected)));

    let settings = Some("a=1\ndefault_input_method=com.kb/.Ime\nb=2".to_string());
    assert!(primary.check_keyboard_access(&settings).is_ok());
    assert!(matches!(secondary.check_keyboard_access(&settings), Err(ProfileViolation::CrossProfileKeyboard)));
    assert!(secondary.check_keyboard_access(&Some("a=1".to_string())).is_ok());

    let acc_null = Some("enabled_accessibility_services=null\n".to_string());
    let acc_on = Some("x=y\nenabled_accessibility_services=com.a/.S\n".to_string());
    assert!(secondary.check_accessibility_access(&acc_null, &None).is_ok());
    assert!(matches!(secondary.check_accessibility_access(&acc_on, &None), Err(ProfileViolation::CrossProfileAccessibility)));
    assert!(primary.check_accessibility_access(&acc_on, &None).is_ok());
    let a11y_maps = Some("libA11y a11y-helper".to_string());
    assert!(matches!(primary.check_accessibility_access(&None, &a11y_maps), Err(ProfileViolation::CrossProfileAccessibility)));
}

#[test]
fn device_management_and_multiple_users() {
    let primary = ProfileChecker::new(0, false);
    assert!(primary.check_device_management(&vec!["<none/>".to_string()]).is_ok());
    assert!(matches!(
        primary.check_device_management(&vec!["<a/>".to_string(), "<profile-owner/>".to_string()]),
        Err(ProfileViolation::ManagedProfileActive)
    ));
    assert!(primary.check_multiple_users(Some(3)).is_ok());
    assert!(matches!(ProfileChecker::new(10, false).check_multiple_users(Some(2)), Err(ProfileViolation::SecondaryUserDetected)));
    assert!(ProfileChecker::new(10, false).check_multiple_users(Some(1)).is_ok());
}

#[test]
fn comprehensive_check_reports_first_failure() {
    let facts = ProfileFacts { maps: None, settings_secure: None, device_policies: vec![], user_dirs: Some(1) };
    assert!(ProfileChecker::new(0, false).comprehensive_check(&facts).is_ok());
    assert!(matches!(ProfileChecker::new(10, false).comprehensive_check(&facts), Err(ProfileViolation::SecondaryUserDetected)));
    let managed = ProfileFacts {
        maps: Some("libc.so".to_string()),
        settings_secure: None,
        device_policies: vec!["deviceOwner".to_string()],
        user_dirs: None,
    };
    assert!(matches!(ProfileChecker::new(0, false).comprehensive_check(&managed), Err(ProfileViolation::ManagedProfileActive)));
    let hooked = ProfileFacts {
        maps: Some("accessibility".to_string()),
        settings_secure: None,
        device_policies: vec!["deviceOwner".to_string()],
        user_dirs: None,
    };
    assert!(matches!(ProfileChecker::new(0, false).comprehensive_check(&hooked), Err(ProfileViolation::CrossProfileAccessibility)));
}

#[test]
fn decode_string_is_lossy_utf8() {
    assert_eq!(decode_string(b"abc"), "abc");
    assert_eq!(decode_string(&[0x61, 0xff, 0x62]), "a\u{fffd}b");
}

#[test]
fn test_user_id_detection() {
    let user_id = ProfileChecker::get_current_user_id(&None, &None, &None, 10_123);
    println!("Current user ID: {}", user_id);
    assert_eq!(user_id, 0);
}

#[test]
fn user_id_sources_in_order() {
    let some = |s: &str| Some(s.to_string());
    assert_eq!(ProfileChecker::get_current_user_id(&some("12"), &some("x user-3.slice"), &None, 0), 12);
    assert_eq!(
        ProfileChecker::get_current_user_id(&some("abc"), &some("0::/\n1:name=systemd:/user.slice/user-10.slice\n"), &None, 0),
        10
    );
    assert_eq!(ProfileChecker::get_current_user_id(&None, &some("a user-x.slice\nb user-7"), &None, 0), 7);
    assert_eq!(ProfileChecker::get_current_user_id(&None, &some("user-5\r\n"), &None, 0), 5);
    assert_eq!(ProfileChecker::get_current_user_id(&None, &some("user-5\r"), &None, 0), 0);
    assert_eq!(ProfileChecker::get_current_user_id(&None, &some("user-4user-9"), &None, 0), 4);
    assert_eq!(ProfileChecker::get_current_user_id(&None, &None, &some("/data/user/11/com.app/files"), 0), 11);
    assert_eq!(ProfileChecker::get_current_user_id(&None, &None, &some("/home/me"), 1_010_123), 10);
    assert_eq!(ProfileChecker::get_current_user_id(&None, &None, &None, 999_999), 0);
}

#[test]
fn parse_i32_follows_str_parse() {
    for s in ["0", "+5", "-0", "-17", "2147483647", "-2147483648", "2147483648", "-2147483649", "", "+", "-", "1a", " 1", "00012"] {
        assert_eq!(parse_i32(s.as_bytes()), s.parse::<i32>().ok(), "input {:?}", s);
    }
}

#[test]
fn debugger_is_found_by_tracer_pid() {
    let c = SecurityChecker::new_at(0);
    let traced = |t: &str| c.check_debugger(&Some(t.to_string()));
    assert_eq!(traced("TracerPid:\t1234\n"), Err(SecurityViolation::DebuggerDetected));
    assert_eq!(traced("Name: a\r\nTracerPid:  77\r\n"), Err(SecurityViolation::DebuggerDetected));
    assert_eq!(traced("TracerPid:\t0\n"), Ok(()));
    assert_eq!(traced("TracerPid:\n"), Ok(()));
    assert_eq!(traced("TracerPid:\u{3000}00"), Err(SecurityViolation::DebuggerDetected));
    assert_eq!(traced("  TracerPid: 5"), Ok(()));
    assert_eq!(traced("TracerPid:x 0"), Ok(()));
    assert_eq!(c.check_debugger(&None), Ok(()));
}

#[test]
fn root_emulator_and_hook_signs() {
    let c = SecurityChecker::new_at(0);
    assert_eq!(root_indicator_paths().len(), 22);
    assert_eq!(emulator_indicator_paths().len(), 5);
    assert_eq!(c.check_root(&vec!["/sbin/.magisk".to_string()]), Err(SecurityViolation::RootDetected));
    assert_eq!(c.check_root(&vec!["/sbin/sux".to_string()]), Ok(()));
    assert_eq!(c.check_emulator(&Some("Hardware : GOLDFISH".to_string()), &vec![]), Err(SecurityViolation::EmulatorDetected));
    assert_eq!(c.check_emulator(&Some("Hardware : Qualcomm".to_string()), &vec!["/dev/qemu_pipe".to_string()]), Err(SecurityViolation::EmulatorDetected));
    assert_eq!(c.check_emulator(&Some("Hardware : Qualcomm".to_string()), &vec![]), Ok(()));
    assert_eq!(c.check_hooks(&Some("7f00 /data/local/tmp/Frida-Agent.so".to_string()), &vec![]), Err(SecurityViolation::HookDetected));
    assert_eq!(c.check_hooks(&None, &vec![("FRIDA_PORT".to_string(), "1".to_string())]), Err(SecurityViolation::HookDetected));
    assert_eq!(c.check_hooks(&None, &vec![("PATH".to_string(), "/usr/bin".to_string())]), Ok(()));
}

#[test]
fn device_comprehensive_check_order() {
    let c = SecurityChecker::new_at(0);
    let clean = DeviceFacts { status: None, cpu_info: None, maps: None, env_vars: vec![], existing_paths: vec![] };
    assert_eq!(c.comprehensive_check(&clean), Ok(()));
    let both = DeviceFacts {
        status: Some("TracerPid: 9".to_string()),
        cpu_info: None,
        maps: None,
        env_vars: vec![],
        existing_paths: vec!["/sbin/su".to_string()],
    };
    assert_eq!(c.comprehensive_check(&both), Err(SecurityViolation::DebuggerDetected));
    let rooted_emulator = DeviceFacts {
        status: None,
        cpu_info: None,
        maps: None,
        env_vars: vec![],
        existing_paths: vec!["/dev/qemu_pipe".to_string(), "/sbin/su".to_string()],
    };
    assert_eq!(c.comprehensive_check(&rooted_emulator), Err(SecurityViolation::RootDetected));
}
