//! The decision core of the settings panel: a pure transition function
//! from the current settings state and one event to the next state and
//! the action the surrounding application must perform. The event loop,
//! widget tree, configuration file and file system stay outside; they
//! hand in plain values and carry out the returned action.

use vstd::prelude::*;
use crate::state::{User, Phone, DeviceSettings, BackupSettings, Settings};

verus! {

/// An event of the settings panel.
pub enum Message {
    LoadDeviceSettings,
    ExpertMode(bool),
    DisableMode(bool),
    MultiUserMode(bool),
    ApplyTheme(String),
    UrlPressed(String),
    BackupSelected(String),
    BackupDevice,
    RestoreDevice,
    DeviceBackedUp(Result<(), String>),
    BackupUserSelected(User),
    Nothing,
}

/// What the surrounding application must do after a settings update.
pub enum SettingsAction {
    Idle,
    SaveConfig,
    OpenUrl(String),
    ListBackupUsers(String),
    PerformBackup,
    PerformRestore,
}

/// The backup panel state for a fresh listing: the first backup and the
/// first known user are preselected.
pub open spec fn fresh_backup_settings(backups: Seq<String>, users: Seq<User>) -> (r: (
    Seq<String>,
    Option<String>,
    Seq<User>,
    Option<User>,
)) {
    (
        backups,
        if backups.len() > 0 {
            Some(backups[0])
        } else {
            None
        },
        users,
        if users.len() > 0 {
            Some(users[0])
        } else {
            None
        },
    )
}

pub open spec fn backup_settings_match(b: BackupSettings, backups: Seq<String>, users: Seq<User>) -> bool {
    let f = fresh_backup_settings(backups, users);
    &&& b.backups@.map_values(|s: String| s@) == backups.map_values(|s: String| s@)
    &&& (b.selected is Some <==> f.1 is Some)
    &&& (b.selected is Some ==> b.selected->0@ == f.1->0@)
    &&& b.users@ == users
    &&& b.selected_user == f.3
}

impl Settings {
    /// Applies one settings event. `known_device` carries the stored
    /// per-device settings for the connected device, if the
    /// configuration has any, and `backups` the identifiers of its
    /// stored snapshots, newest first; both matter only to
    /// `LoadDeviceSettings` and `DeviceBackedUp`.
    pub fn update(
        &mut self,
        phone: &Phone,
        msg: Message,
        known_device: Option<DeviceSettings>,
        backups: Vec<String>,
    ) -> (r: SettingsAction)
        ensures
            match msg {
                Message::ExpertMode(t) => {
                    &&& final(self).general.expert_mode == t
                    &&& final(self).general.theme == old(self).general.theme
                    &&& final(self).device == old(self).device
                    &&& r is SaveConfig
                },
                Message::DisableMode(t) => if phone.android_sdk >= 23 {
                    &&& final(self).device.disable_mode == t
                    &&& final(self).device.multi_user_mode == old(self).device.multi_user_mode
                    &&& final(self).device.device_id == old(self).device.device_id
                    &&& final(self).device.backup == old(self).device.backup
                    &&& final(self).general == old(self).general
                    &&& r is SaveConfig
                } else {
                    &&& *final(self) == *old(self)
                    &&& r is Idle
                },
                Message::MultiUserMode(t) => {
                    &&& final(self).device.multi_user_mode == t
                    &&& final(self).device.disable_mode == old(self).device.disable_mode
                    &&& final(self).device.device_id == old(self).device.device_id
                    &&& final(self).device.backup == old(self).device.backup
                    &&& final(self).general == old(self).general
                    &&& r is SaveConfig
                },
                Message::ApplyTheme(t) => {
                    &&& final(self).general.theme == t
                    &&& final(self).general.expert_mode == old(self).general.expert_mode
                    &&& final(self).device == old(self).device
                    &&& r is SaveConfig
                },
                Message::UrlPressed(u) => {
                    &&& *final(self) == *old(self)
                    &&& r matches SettingsAction::OpenUrl(v) && v == u
                },
                Message::LoadDeviceSettings => {
                    &&& final(self).general == old(self).general
                    &&& backup_settings_match(final(self).device.backup, backups@, phone.user_list@)
                    &&& match known_device {
                        Some(d) => {
                            &&& final(self).device.device_id == d.device_id
                            &&& final(self).device.multi_user_mode == d.multi_user_mode
                            &&& final(self).device.disable_mode == d.disable_mode
                        },
                        None => {
                            &&& final(self).device.device_id@ == phone.adb_id@
                            &&& final(self).device.multi_user_mode == (phone.android_sdk > 21)
                            &&& final(self).device.disable_mode == false
                        },
                    }
                    &&& r is Idle
                },
                Message::BackupSelected(p) => {
                    &&& final(self).general == old(self).general
                    &&& final(self).device.device_id == old(self).device.device_id
                    &&& final(self).device.multi_user_mode == old(self).device.multi_user_mode
                    &&& final(self).device.disable_mode == old(self).device.disable_mode
                    &&& final(self).device.backup.backups == old(self).device.backup.backups
                    &&& final(self).device.backup.users == old(self).device.backup.users
                    &&& final(self).device.backup.selected_user == old(self).device.backup.selected_user
                    &&& final(self).device.backup.selected matches Some(q) && q == p
                    &&& r matches SettingsAction::ListBackupUsers(v) && v@ == p@
                },
                Message::BackupDevice => *final(self) == *old(self) && r is PerformBackup,
                Message::RestoreDevice => *final(self) == *old(self) && r is PerformRestore,
                Message::DeviceBackedUp(_) => {
                    &&& final(self).general == old(self).general
                    &&& final(self).device.device_id == old(self).device.device_id
                    &&& final(self).device.multi_user_mode == old(self).device.multi_user_mode
                    &&& final(self).device.disable_mode == old(self).device.disable_mode
                    &&& final(self).device.backup.users == old(self).device.backup.users
                    &&& final(self).device.backup.selected_user == old(self).device.backup.selected_user
                    &&& final(self).device.backup.backups@.map_values(|s: String| s@)
                        == backups@.map_values(|s: String| s@)
                    &&& (final(self).device.backup.selected is Some <==> backups@.len() > 0)
                    &&& (backups@.len() > 0 ==> final(self).device.backup.selected->0@ == backups@[0]@)
                    &&& r is Idle
                },
                Message::BackupUserSelected(u) => {
                    &&& final(self).general == old(self).general
                    &&& final(self).device.device_id == old(self).device.device_id
                    &&& final(self).device.multi_user_mode == old(self).device.multi_user_mode
                    &&& final(self).device.disable_mode == old(self).device.disable_mode
                    &&& final(self).device.backup.backups == old(self).device.backup.backups
                    &&& final(self).device.backup.users == old(self).device.backup.users
                    &&& final(self).device.backup.selected == old(self).device.backup.selected
                    &&& final(self).device.backup.selected_user == Some(u)
                    &&& r is Idle
                },
                Message::Nothing => *final(self) == *old(self) && r is Idle,
            },
    {
        match msg {
            Message::ExpertMode(toggled) => {
                self.general.expert_mode = toggled;
                SettingsAction::SaveConfig
            },
            Message::DisableMode(toggled) => {
                if phone.android_sdk >= 23 {
                    self.device.disable_mode = toggled;
                    SettingsAction::SaveConfig
                } else {
                    SettingsAction::Idle
                }
            },
            Message::MultiUserMode(toggled) => {
                self.device.multi_user_mode = toggled;
                SettingsAction::SaveConfig
            },
            Message::ApplyTheme(theme) => {
                self.general.theme = theme;
                SettingsAction::SaveConfig
            },
            Message::UrlPressed(url) => SettingsAction::OpenUrl(url),
            Message::LoadDeviceSettings => {
                let selected = if backups.len() > 0 {
                    Some(backups[0].clone())
                } else {
                    None
                };
                let selected_user = if phone.user_list.len() > 0 {
                    Some(phone.user_list[0])
                } else {
                    None
                };
                let backup = BackupSettings {
                    backups,
                    selected,
                    users: phone.user_list.clone(),
                    selected_user,
                };
                match known_device {
                    Some(d) => {
                        self.device = DeviceSettings {
                            device_id: d.device_id,
                            multi_user_mode: d.multi_user_mode,
                            disable_mode: d.disable_mode,
                            backup,
                        };
                    },
                    None => {
                        self.device = DeviceSettings {
                            device_id: phone.adb_id.clone(),
                            multi_user_mode: phone.android_sdk > 21,
                            disable_mode: false,
                            backup,
                        };
                    },
                }
                proof {
                    assert(self.device.backup.backups@.map_values(|s: String| s@)
                        =~= backups@.map_values(|s: String| s@));
                }
                SettingsAction::Idle
            },
            Message::BackupSelected(path) => {
                let target = path.clone();
                self.device.backup.selected = Some(path);
                SettingsAction::ListBackupUsers(target)
            },
            Message::BackupDevice => SettingsAction::PerformBackup,
            Message::RestoreDevice => SettingsAction::PerformRestore,
            Message::DeviceBackedUp(_) => {
                let selected = if backups.len() > 0 {
                    Some(backups[0].clone())
                } else {
                    None
                };
                self.device.backup.backups = backups;
                self.device.backup.selected = selected;
                proof {
                    assert(self.device.backup.backups@.map_values(|s: String| s@)
                        =~= backups@.map_values(|s: String| s@));
                }
                SettingsAction::Idle
            },
            Message::BackupUserSelected(user) => {
                self.device.backup.selected_user = Some(user);
                SettingsAction::Idle
            },
            Message::Nothing => SettingsAction::Idle,
        }
    }
}

} // verus!
