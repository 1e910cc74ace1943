use debloat_core::settings::{Message, SettingsAction};
use debloat_core::state::{
    BackupSettings, DeviceSettings, GeneralSettings, PackageState, Phone, Settings, User,
};

fn phone(sdk: u8, ids: &[u16]) -> Phone {
    Phone {
        model: "test model".to_owned(),
        android_sdk: sdk,
        user_list: ids.iter().enumerate().map(|(i, id)| User { id: *id, index: i }).collect(),
        adb_id: "serial".to_owned(),
    }
}

fn fresh() -> Settings {
    Settings {
        general: GeneralSettings { theme: "Dark".to_owned(), expert_mode: false },
        device: DeviceSettings {
            device_id: String::new(),
            multi_user_mode: false,
            disable_mode: false,
            backup: BackupSettings {
                backups: vec![],
                selected: None,
                users: vec![],
                selected_user: None,
            },
        },
    }
}

#[test]
fn expert_mode_toggle_saves_config() {
    let mut s = fresh();
    let a = s.update(&phone(25, &[0]), Message::ExpertMode(true), None, vec![]);
    assert!(s.general.expert_mode);
    assert!(matches!(a, SettingsAction::SaveConfig));
}

#[test]
fn disable_mode_is_gated_on_api_level() {
    let mut s = fresh();
    let a = s.update(&phone(22, &[0]), Message::DisableMode(true), None, vec![]);
    assert!(!s.device.disable_mode);
    assert!(matches!(a, SettingsAction::Idle));
    let a = s.update(&phone(23, &[0]), Message::DisableMode(true), None, vec![]);
    assert!(s.device.disable_mode);
    assert!(matches!(a, SettingsAction::SaveConfig));
}

#[test]
fn load_device_settings_without_stored_config_uses_device_defaults() {
    let mut s = fresh();
    let a = s.update(
        &phone(25, &[0, 10]),
        Message::LoadDeviceSettings,
        None,
        vec!["b1".to_owned(), "b2".to_owned()],
    );
    assert!(matches!(a, SettingsAction::Idle));
    assert_eq!(s.device.device_id, "serial");
    assert!(s.device.multi_user_mode);
    assert!(!s.device.disable_mode);
    assert_eq!(s.device.backup.backups, vec!["b1".to_owned(), "b2".to_owned()]);
    assert_eq!(s.device.backup.selected.as_deref(), Some("b1"));
    assert_eq!(s.device.backup.users.len(), 2);
    assert_eq!(s.device.backup.selected_user.map(|u| u.id), Some(0));
}

#[test]
fn load_device_settings_keeps_stored_config() {
    let mut s = fresh();
    let stored = DeviceSettings {
        device_id: "serial".to_owned(),
        multi_user_mode: false,
        disable_mode: true,
        backup: BackupSettings {
            backups: vec![],
            selected: None,
            users: vec![],
            selected_user: None,
        },
    };
    s.update(&phone(25, &[7]), Message::LoadDeviceSettings, Some(stored), vec![]);
    assert_eq!(s.device.device_id, "serial");
    assert!(!s.device.multi_user_mode);
    assert!(s.device.disable_mode);
    assert!(s.device.backup.selected.is_none());
    assert_eq!(s.device.backup.selected_user.map(|u| u.id), Some(7));
}

#[test]
fn backup_selection_and_restore_actions() {
    let mut s = fresh();
    let a = s.update(&phone(25, &[0]), Message::BackupSelected("b9".to_owned()), None, vec![]);
    assert_eq!(s.device.backup.selected.as_deref(), Some("b9"));
    match a {
        SettingsAction::ListBackupUsers(p) => assert_eq!(p, "b9"),
        _ => panic!("expected a request to list the backup's users"),
    }
    let a = s.update(&phone(25, &[0]), Message::BackupDevice, None, vec![]);
    assert!(matches!(a, SettingsAction::PerformBackup));
    let a = s.update(&phone(25, &[0]), Message::RestoreDevice, None, vec![]);
    assert!(matches!(a, SettingsAction::PerformRestore));
}

#[test]
fn device_backed_up_refreshes_backup_list() {
    let mut s = fresh();
    let a = s.update(
        &phone(25, &[0]),
        Message::DeviceBackedUp(Ok(())),
        None,
        vec!["new".to_owned(), "older".to_owned()],
    );
    assert!(matches!(a, SettingsAction::Idle));
    assert_eq!(s.device.backup.backups.len(), 2);
    assert_eq!(s.device.backup.selected.as_deref(), Some("new"));
}

#[test]
fn user_selection_and_theme() {
    let mut s = fresh();
    s.update(
        &phone(25, &[0, 10]),
        Message::BackupUserSelected(User { id: 10, index: 1 }),
        None,
        vec![],
    );
    assert_eq!(s.device.backup.selected_user.map(|u| u.id), Some(10));
    let a = s.update(&phone(25, &[0]), Message::ApplyTheme("Light".to_owned()), None, vec![]);
    assert_eq!(s.general.theme, "Light");
    assert!(matches!(a, SettingsAction::SaveConfig));
    let a = s.update(
        &phone(25, &[0]),
        Message::UrlPressed("https://example.invalid/faq".to_owned()),
        None,
        vec![],
    );
    match a {
        SettingsAction::OpenUrl(u) => assert_eq!(u, "https://example.invalid/faq"),
        _ => panic!("expected an open-url action"),
    }
    let a = s.update(&phone(25, &[0]), Message::Nothing, None, vec![]);
    assert!(matches!(a, SettingsAction::Idle));
}

#[test]
fn package_state_equality_is_usable_from_callers() {
    assert_eq!(PackageState::Enabled, PackageState::Enabled);
    assert_ne!(PackageState::Enabled, PackageState::Disabled);
}

#[test]
fn default_settings_are_empty() {
    let s = Settings::default();
    assert_eq!(s.general.theme, "");
    assert!(!s.general.expert_mode);
    assert_eq!(s.device.device_id, "");
    assert!(!s.device.multi_user_mode);
    assert!(!s.device.disable_mode);
    assert!(s.device.backup.backups.is_empty());
    assert!(s.device.backup.selected.is_none());
    assert!(s.device.backup.users.is_empty());
    assert!(s.device.backup.selected_user.is_none());
}
