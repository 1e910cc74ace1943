//! Model types: package lifecycle states, packages, users, the device,
//! per-device settings, and the point-in-time backup snapshot.

use vstd::prelude::*;

verus! {

/// Lifecycle state of a system package. `All` is a query wildcard only and
/// is never the state of a concrete package instance.
#[derive(Clone, Copy, Debug, PartialEq, Eq, Structural)]
pub enum PackageState {
    Enabled,
    Disabled,
    Uninstalled,
    All,
}

/// A package as the core sees it: a name unique within a user scope, and
/// its current lifecycle state.
#[derive(Clone, Debug)]
pub struct CorePackage {
    pub name: String,
    pub state: PackageState,
}

/// The mathematical view of a package: its name as a character sequence,
/// and its state.
#[verifier::ext_equal]
pub struct PkgView {
    pub name: Seq<char>,
    pub state: PackageState,
}

impl PkgView {
    /// A concrete package instance never carries the wildcard state.
    pub open spec fn wf(self) -> bool {
        self.state != PackageState::All
    }
}

impl View for CorePackage {
    type V = PkgView;

    open spec fn view(&self) -> PkgView {
        PkgView { name: self.name@, state: self.state }
    }
}

impl CorePackage {
    /// A concrete package instance never carries the wildcard state.
    pub open spec fn wf(self) -> bool {
        self@.wf()
    }
}

/// A device user profile: a device-assigned id, and the position of its
/// package listing in the in-memory per-device listing table.
#[derive(Clone, Copy, Debug)]
pub struct User {
    pub id: u16,
    pub index: usize,
}

/// The connected device.
#[derive(Clone, Debug)]
pub struct Phone {
    pub model: String,
    pub android_sdk: u8,
    pub user_list: Vec<User>,
    pub adb_id: String,
}

/// Which kind of action asked for a command sequence: an ordinary
/// interactive action, or a device restore.
#[derive(Clone, Copy, Debug, PartialEq, Eq, Structural)]
pub enum Action {
    Misc,
    RestoreDevice,
}

/// Backup-related state of the settings panel for one device.
#[derive(Clone, Debug)]
pub struct BackupSettings {
    pub backups: Vec<String>,
    pub selected: Option<String>,
    pub users: Vec<User>,
    pub selected_user: Option<User>,
}

/// Settings that affect only the currently selected device.
#[derive(Clone, Debug)]
pub struct DeviceSettings {
    pub device_id: String,
    pub multi_user_mode: bool,
    pub disable_mode: bool,
    pub backup: BackupSettings,
}

/// Settings independent of any device.
#[derive(Clone, Debug)]
pub struct GeneralSettings {
    pub theme: String,
    pub expert_mode: bool,
}

/// The full settings state.
#[derive(Clone, Debug)]
pub struct Settings {
    pub general: GeneralSettings,
    pub device: DeviceSettings,
}

impl Default for Settings {
    /// An empty settings state: no theme chosen, expert mode off, and
    /// no device-specific state loaded yet.
    fn default() -> (r: Settings)
        ensures
            r.general.theme@ == Seq::<char>::empty(),
            !r.general.expert_mode,
            r.device.device_id@ == Seq::<char>::empty(),
            !r.device.multi_user_mode,
            !r.device.disable_mode,
            r.device.backup.backups@.len() == 0,
            r.device.backup.selected is None,
            r.device.backup.users@.len() == 0,
            r.device.backup.selected_user is None,
    {
        Settings {
            general: GeneralSettings { theme: String::new(), expert_mode: false },
            device: DeviceSettings {
                device_id: String::new(),
                multi_user_mode: false,
                disable_mode: false,
                backup: BackupSettings {
                    backups: Vec::new(),
                    selected: None,
                    users: Vec::new(),
                    selected_user: None,
                },
            },
        }
    }
}

/// The packages recorded for one user in a snapshot.
#[derive(Clone, Debug)]
pub struct UserBackup {
    pub id: u16,
    pub packages: Vec<CorePackage>,
}

/// An immutable point-in-time record of every package's state for every
/// user of one device.
#[derive(Clone, Debug)]
pub struct PhoneBackup {
    pub device_id: String,
    pub users: Vec<UserBackup>,
}

/// The views of a sequence of packages.
pub open spec fn pkg_views(s: Seq<CorePackage>) -> Seq<PkgView> {
    s.map_values(|p: CorePackage| p@)
}

/// The mathematical view of one user's recorded packages.
#[verifier::ext_equal]
pub struct UserBackupView {
    pub id: u16,
    pub packages: Seq<PkgView>,
}

impl UserBackupView {
    /// Every recorded package is a concrete instance.
    pub open spec fn wf(self) -> bool {
        forall|i: int| 0 <= i < self.packages.len() ==> (#[trigger] self.packages[i]).wf()
    }
}

impl View for UserBackup {
    type V = UserBackupView;

    open spec fn view(&self) -> UserBackupView {
        UserBackupView { id: self.id, packages: pkg_views(self.packages@) }
    }
}

impl UserBackup {
    /// Every recorded package is a concrete instance.
    pub open spec fn wf(self) -> bool {
        self@.wf()
    }
}

/// The mathematical view of a snapshot.
#[verifier::ext_equal]
pub struct BackupView {
    pub device_id: Seq<char>,
    pub users: Seq<UserBackupView>,
}

impl BackupView {
    /// Every recorded package of every user is a concrete instance.
    pub open spec fn wf(self) -> bool {
        forall|i: int| 0 <= i < self.users.len() ==> (#[trigger] self.users[i]).wf()
    }
}

impl View for PhoneBackup {
    type V = BackupView;

    open spec fn view(&self) -> BackupView {
        BackupView {
            device_id: self.device_id@,
            users: self.users@.map_values(|u: UserBackup| u@),
        }
    }
}

impl PhoneBackup {
    /// Every recorded package of every user is a concrete instance.
    pub open spec fn wf(self) -> bool {
        self@.wf()
    }
}

} // verus!
