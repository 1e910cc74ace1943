use debloat_core::builder::apply_pkg_state_commands;
use debloat_core::codec::{parse_backup, serialize_backup};
use debloat_core::state::{
    Action, BackupSettings, CorePackage, DeviceSettings, PackageState, Phone, User,
};
use debloat_core::store::{backup_filename, backup_file_name_now, backup_users, capture_phone_backup, restore_plan};

fn pkg(name: &str, state: PackageState) -> CorePackage {
    CorePackage { name: name.to_owned(), state }
}

fn phone(sdk: u8, ids: &[u16]) -> Phone {
    Phone {
        model: "test model".to_owned(),
        android_sdk: sdk,
        user_list: ids.iter().enumerate().map(|(i, id)| User { id: *id, index: i }).collect(),
        adb_id: "serial".to_owned(),
    }
}

fn settings(multi: bool) -> DeviceSettings {
    DeviceSettings {
        device_id: "serial".to_owned(),
        multi_user_mode: multi,
        disable_mode: false,
        backup: BackupSettings {
            backups: vec![],
            selected: None,
            users: vec![],
            selected_user: None,
        },
    }
}

#[test]
fn capture_copies_every_state_unfiltered() {
    let users = vec![User { id: 0, index: 0 }, User { id: 10, index: 1 }];
    let listings = vec![
        vec![
            pkg("com.a", PackageState::Enabled),
            pkg("com.b", PackageState::Disabled),
            pkg("com.c", PackageState::Uninstalled),
        ],
        vec![pkg("com.a", PackageState::Disabled)],
    ];
    let b = capture_phone_backup(&users, "serial".to_owned(), &listings);
    assert_eq!(b.device_id, "serial");
    assert_eq!(b.users.len(), 2);
    assert_eq!(b.users[0].id, 0);
    assert_eq!(b.users[0].packages.len(), 3);
    assert_eq!(b.users[0].packages[1].name, "com.b");
    assert_eq!(b.users[0].packages[1].state, PackageState::Disabled);
    assert_eq!(b.users[1].id, 10);
    assert_eq!(b.users[1].packages[0].state, PackageState::Disabled);
}

#[test]
fn capture_write_read_round_trip_reproduces_triples() {
    let users = vec![User { id: 0, index: 0 }, User { id: 10, index: 1 }];
    let listings = vec![
        vec![pkg("com.a", PackageState::Enabled), pkg("com.b", PackageState::Uninstalled)],
        vec![pkg("com.c", PackageState::Disabled)],
    ];
    let b = capture_phone_backup(&users, "dev".to_owned(), &listings);
    let text = serialize_backup(&b);
    let back = parse_backup(&text).expect("written snapshot must read back");
    let mut triples = vec![];
    for u in &back.users {
        for p in &u.packages {
            triples.push((u.id, p.name.clone(), p.state));
        }
    }
    assert_eq!(
        triples,
        vec![
            (0, "com.a".to_owned(), PackageState::Enabled),
            (0, "com.b".to_owned(), PackageState::Uninstalled),
            (10, "com.c".to_owned(), PackageState::Disabled),
        ]
    );
}

#[test]
fn backup_users_reports_recorded_ids_with_zero_index() {
    let users = vec![User { id: 3, index: 1 }, User { id: 7, index: 0 }];
    let listings = vec![vec![], vec![]];
    let b = capture_phone_backup(&users, "dev".to_owned(), &listings);
    let out = backup_users(&b);
    assert_eq!(out.len(), 2);
    assert_eq!(out[0].id, 3);
    assert_eq!(out[0].index, 0);
    assert_eq!(out[1].id, 7);
    assert_eq!(out[1].index, 0);
}

#[test]
fn reconciler_plan_matches_builder_for_recorded_uninstall() {
    // Device at API level 25; live state of com.foo is Enabled, the
    // snapshot recorded it Uninstalled.
    let ph = phone(25, &[0, 10]);
    let st = settings(false);
    let target = User { id: 0, index: 0 };
    let users = vec![target];
    let listings = vec![vec![pkg("com.foo", PackageState::Uninstalled)]];
    let snapshot = capture_phone_backup(&users, "serial".to_owned(), &listings);
    let live = vec![pkg("com.foo", PackageState::Enabled)];
    let plan = restore_plan(&snapshot, &target, &live, &ph, &st);
    let direct = apply_pkg_state_commands(
        &target,
        &pkg("com.foo", PackageState::Uninstalled),
        PackageState::Enabled,
        &ph,
        &st,
        &Action::RestoreDevice,
    );
    assert_eq!(plan, direct);
    assert_eq!(
        plan,
        vec![
            "pm disable-user --user 0 com.foo".to_owned(),
            "am force-stop --user 0 com.foo".to_owned(),
            "pm clear --user 0 com.foo".to_owned(),
            "pm disable-user --user 10 com.foo".to_owned(),
            "am force-stop --user 10 com.foo".to_owned(),
            "pm clear --user 10 com.foo".to_owned(),
        ]
    );
}

#[test]
fn reconciler_defaults_missing_live_package_to_enabled() {
    let ph = phone(25, &[0]);
    let st = settings(false);
    let target = User { id: 0, index: 0 };
    let users = vec![target];
    let listings = vec![vec![pkg("com.gone", PackageState::Uninstalled)]];
    let snapshot = capture_phone_backup(&users, "serial".to_owned(), &listings);
    // com.gone is absent from the live listing: its live state counts as
    // Enabled, so the plan moves Enabled -> Uninstalled.
    let plan = restore_plan(&snapshot, &target, &vec![], &ph, &st);
    assert_eq!(
        plan,
        vec![
            "pm disable-user --user 0 com.gone".to_owned(),
            "am force-stop --user 0 com.gone".to_owned(),
            "pm clear --user 0 com.gone".to_owned(),
        ]
    );
}

#[test]
fn reconciler_skips_packages_whose_state_matches() {
    let ph = phone(25, &[0]);
    let st = settings(false);
    let target = User { id: 0, index: 0 };
    let users = vec![target];
    let listings = vec![vec![
        pkg("com.same", PackageState::Disabled),
        pkg("com.diff", PackageState::Enabled),
    ]];
    let snapshot = capture_phone_backup(&users, "serial".to_owned(), &listings);
    let live = vec![
        pkg("com.same", PackageState::Disabled),
        pkg("com.diff", PackageState::Uninstalled),
    ];
    let plan = restore_plan(&snapshot, &target, &live, &ph, &st);
    assert_eq!(plan, vec!["cmd package install-existing --user 0 com.diff".to_owned()]);
}

#[test]
fn reconciler_ignores_entries_of_other_users() {
    let ph = phone(25, &[0, 10]);
    let st = settings(false);
    let target = User { id: 10, index: 0 };
    let users = vec![User { id: 0, index: 0 }, User { id: 10, index: 1 }];
    let listings = vec![
        vec![pkg("com.a", PackageState::Uninstalled)],
        vec![],
    ];
    let snapshot = capture_phone_backup(&users, "serial".to_owned(), &listings);
    let plan = restore_plan(&snapshot, &target, &vec![], &ph, &st);
    assert!(plan.is_empty());
}

#[test]
fn filename_is_zero_padded_minute_granularity() {
    assert_eq!(backup_filename(2026, 1, 2, 3, 4), "2026-01-02-03-04.json");
    assert_eq!(backup_filename(999, 12, 31, 23, 59), "0999-12-31-23-59.json");
    assert_eq!(backup_filename(-44, 10, 9, 8, 7), "-0044-10-09-08-07.json");
    assert_eq!(backup_filename(12345, 6, 7, 8, 9), "12345-06-07-08-09.json");
}

#[test]
fn filename_now_has_canonical_shape() {
    let name = backup_file_name_now();
    assert!(name.ends_with(".json"));
    let stem = &name[..name.len() - 5];
    let parts: Vec<&str> = stem.rsplitn(5, '-').collect();
    assert_eq!(parts.len(), 5);
    for p in &parts[..4] {
        assert_eq!(p.len(), 2);
        assert!(p.chars().all(|c| c.is_ascii_digit()));
    }
}
