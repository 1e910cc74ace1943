use debloat_core::builder::apply_pkg_state_commands;
use debloat_core::caps::capabilities;
use debloat_core::state::{Action, CorePackage, PackageState, Phone, User};

fn phone(sdk: u8, ids: &[u16]) -> Phone {
    Phone {
        model: "test model".to_owned(),
        android_sdk: sdk,
        user_list: ids.iter().enumerate().map(|(i, id)| User { id: *id, index: i }).collect(),
        adb_id: "serial".to_owned(),
    }
}

fn settings(multi: bool) -> debloat_core::state::DeviceSettings {
    debloat_core::state::DeviceSettings {
        device_id: "serial".to_owned(),
        multi_user_mode: multi,
        disable_mode: false,
        backup: debloat_core::state::BackupSettings {
            backups: vec![],
            selected: None,
            users: vec![],
            selected_user: None,
        },
    }
}

fn pkg(name: &str, state: PackageState) -> CorePackage {
    CorePackage { name: name.to_owned(), state }
}

fn build(
    current: PackageState,
    desired: PackageState,
    sdk: u8,
    name: &str,
    ids: &[u16],
    selected: u16,
    multi: bool,
    action: Action,
) -> Vec<String> {
    let ph = phone(sdk, ids);
    let sel = User { id: selected, index: 0 };
    apply_pkg_state_commands(&sel, &pkg(name, desired), current, &ph, &settings(multi), &action)
}

#[test]
fn same_state_is_no_op_everywhere() {
    for sdk in [16u8, 19, 20, 21, 22, 23, 30] {
        for st in [
            PackageState::Enabled,
            PackageState::Disabled,
            PackageState::Uninstalled,
            PackageState::All,
        ] {
            let r = build(st, st, sdk, "com.foo", &[0, 10], 0, true, Action::Misc);
            assert!(r.is_empty());
        }
    }
}

#[test]
fn modern_uninstall_order() {
    let r = build(
        PackageState::Enabled,
        PackageState::Uninstalled,
        25,
        "com.foo",
        &[0],
        0,
        false,
        Action::Misc,
    );
    assert_eq!(
        r,
        vec![
            "pm disable-user --user 0 com.foo".to_owned(),
            "am force-stop --user 0 com.foo".to_owned(),
            "pm clear --user 0 com.foo".to_owned(),
        ]
    );
}

#[test]
fn block_tier_uninstall_is_block_then_clear() {
    for sdk in [19u8, 20] {
        let r = build(
            PackageState::Enabled,
            PackageState::Uninstalled,
            sdk,
            "com.foo",
            &[0, 10],
            0,
            true,
            Action::Misc,
        );
        assert_eq!(r, vec!["pm block com.foo".to_owned(), "pm clear com.foo".to_owned()]);
        assert!(r.iter().all(|c| !c.contains("disable-user")));
    }
}

#[test]
fn hide_tier_uninstall_is_hide_then_clear_per_user() {
    let r = build(
        PackageState::Enabled,
        PackageState::Uninstalled,
        22,
        "com.foo",
        &[0, 10],
        0,
        true,
        Action::Misc,
    );
    assert_eq!(
        r,
        vec![
            "pm hide --user 0 com.foo".to_owned(),
            "pm clear --user 0 com.foo".to_owned(),
            "pm hide --user 10 com.foo".to_owned(),
            "pm clear --user 10 com.foo".to_owned(),
        ]
    );
}

#[test]
fn legacy_tier_is_single_unscoped_command() {
    for desired in [PackageState::Uninstalled, PackageState::Disabled] {
        let r = build(
            PackageState::Enabled,
            desired,
            16,
            "com.foo",
            &[0, 10, 11],
            10,
            true,
            Action::Misc,
        );
        assert_eq!(r, vec!["pm uninstall com.foo".to_owned()]);
    }
    let r = build(
        PackageState::Uninstalled,
        PackageState::Enabled,
        16,
        "com.foo",
        &[0, 10],
        0,
        false,
        Action::Misc,
    );
    assert!(r.is_empty());
}

#[test]
fn wildcard_target_is_safe_no_op() {
    for sdk in [16u8, 19, 21, 23, 33] {
        for cur in [PackageState::Enabled, PackageState::Disabled, PackageState::Uninstalled] {
            let r = build(cur, PackageState::All, sdk, "com.foo", &[0, 10], 0, true, Action::Misc);
            assert!(r.is_empty());
        }
    }
}

#[test]
fn interactive_single_user_scope() {
    let r = build(
        PackageState::Disabled,
        PackageState::Enabled,
        25,
        "com.foo",
        &[0, 10, 11],
        10,
        false,
        Action::Misc,
    );
    assert_eq!(r, vec!["pm enable --user 10 com.foo".to_owned()]);
}

#[test]
fn interactive_multi_user_scope_covers_all_users() {
    let r = build(
        PackageState::Disabled,
        PackageState::Enabled,
        25,
        "com.foo",
        &[0, 10],
        10,
        true,
        Action::Misc,
    );
    assert_eq!(
        r,
        vec!["pm enable --user 0 com.foo".to_owned(), "pm enable --user 10 com.foo".to_owned()]
    );
}

#[test]
fn restore_scope_covers_all_users_even_without_multi_user_mode() {
    let r = build(
        PackageState::Uninstalled,
        PackageState::Enabled,
        25,
        "com.foo",
        &[0, 10],
        10,
        false,
        Action::RestoreDevice,
    );
    assert_eq!(
        r,
        vec![
            "cmd package install-existing --user 0 com.foo".to_owned(),
            "cmd package install-existing --user 10 com.foo".to_owned(),
        ]
    );
}

#[test]
fn reinstall_on_block_tier_is_unblock_then_clear() {
    let r = build(
        PackageState::Uninstalled,
        PackageState::Enabled,
        19,
        "com.bar",
        &[0],
        0,
        false,
        Action::Misc,
    );
    assert_eq!(r, vec!["pm unblock com.bar".to_owned(), "pm clear com.bar".to_owned()]);
}

#[test]
fn disable_target_stops_after_state_defining_command() {
    let r = build(
        PackageState::Enabled,
        PackageState::Disabled,
        25,
        "com.foo",
        &[0],
        0,
        false,
        Action::Misc,
    );
    assert_eq!(r, vec!["pm disable-user --user 0 com.foo".to_owned()]);
    let r = build(
        PackageState::Enabled,
        PackageState::Disabled,
        21,
        "com.foo",
        &[0],
        0,
        false,
        Action::Misc,
    );
    assert_eq!(r, vec!["pm hide --user 0 com.foo".to_owned()]);
}

#[test]
fn large_user_id_is_rendered_in_decimal() {
    let r = build(
        PackageState::Disabled,
        PackageState::Enabled,
        25,
        "com.foo",
        &[65535],
        65535,
        false,
        Action::Misc,
    );
    assert_eq!(r, vec!["pm enable --user 65535 com.foo".to_owned()]);
}

#[test]
fn dec_string_renders_exact_digits() {
    assert_eq!(debloat_core::builder::dec_string(0), "0");
    assert_eq!(debloat_core::builder::dec_string(7), "7");
    assert_eq!(debloat_core::builder::dec_string(65535), "65535");
    assert_eq!(debloat_core::builder::dec_string(1000000), "1000000");
}

#[test]
fn capability_tiers_match_api_levels() {
    let c = capabilities(25);
    assert!(c.supports_per_user_scope);
    assert!(c.supports_disable_user);
    assert!(c.supports_install_existing);
    assert!(!c.supports_per_user_hide);
    assert!(!c.supports_block);
    assert!(c.supports_clear);
    let c = capabilities(22);
    assert!(c.supports_per_user_scope);
    assert!(!c.supports_disable_user);
    assert!(c.supports_per_user_hide);
    assert!(!c.supports_block);
    assert!(c.supports_clear);
    let c = capabilities(19);
    assert!(!c.supports_per_user_scope);
    assert!(!c.supports_per_user_hide);
    assert!(c.supports_block);
    assert!(c.supports_clear);
    let c = capabilities(16);
    assert!(!c.supports_per_user_scope);
    assert!(!c.supports_block);
    assert!(!c.supports_clear);
}
