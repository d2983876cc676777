use winreg_hive::cli::ExportArgs;
use winreg_hive::export::{export_file_name, registry_path, save_command, ExportError, ExportKey};
use winreg_hive::export_key::Key as ExportRootKey;
use winreg_hive::key::Key;
use winreg_hive::owned_key::Key as OwnedKey;
use winreg_hive::root::RootKey;

#[test]
fn root_key_names() {
    assert_eq!(RootKey::HkeyLocalMachine.get_name(), "HKEY_LOCAL_MACHINE");
    assert_eq!(RootKey::HkeyLocalMachine.get_name_short(), "HKLM");
    assert_eq!(RootKey::HkeyUsers.get_name_short(), "HKU");
    assert_eq!(RootKey::HkeyDynData.get_name(), "HKEY_DYN_DATA");
}

#[test]
fn root_key_parses_full_and_short_names_in_any_case() {
    assert_eq!(RootKey::parse("hklm\\SOFTWARE\\Microsoft").unwrap(), RootKey::HkeyLocalMachine);
    assert_eq!(RootKey::parse("Hkey_Current_User").unwrap(), RootKey::HkeyCurrentUser);
    assert_eq!(RootKey::parse("HKPD\\x").unwrap(), RootKey::HkeyPerformanceData);
}

#[test]
fn unknown_root_key_is_reported() {
    let e = RootKey::parse("bogus\\software").unwrap_err();
    assert_eq!(e.msg(), "No root key with name 'BOGUS' exists");
}

#[test]
fn common_key_names_and_parse() {
    assert_eq!(Key::HkeyClassesRoot.get_name(), "HKEY_CLASSES_ROOT");
    assert_eq!(Key::HkeyClassesRoot.get_name_short(), "HKCR");
    assert_eq!(Key::parse("hkcc").unwrap(), Key::HkeyCurrentConfig);
    assert_eq!(Key::parse("nope").unwrap_err().msg(), "No root key with name 'NOPE' exists");
}

#[test]
fn export_keys_take_full_names_only() {
    assert_eq!(ExportRootKey::parse("hkey_users\\s").unwrap(), ExportRootKey::HkeyUsers);
    assert!(ExportRootKey::parse("HKU\\s").is_err());
    assert_eq!(ExportRootKey::HkeyUsers.get_name(), "HKEY_USERS");
}

#[test]
fn owned_key_name() {
    assert_eq!(OwnedKey::HkeyCurrentUser.get_name(), String::from("HKEY_CURRENT_USER"));
}

#[test]
fn export_paths_and_command() {
    let path = registry_path(RootKey::HkeyLocalMachine, "SOFTWARE");
    assert_eq!(path, "HKEY_LOCAL_MACHINE\\SOFTWARE");
    let file = export_file_name(RootKey::HkeyLocalMachine, "SOFTWARE");
    assert_eq!(file, "HKEY_LOCAL_MACHINE-SOFTWARE.dat");
    assert_eq!(save_command(&path, "C:\\out\\x.dat"), "reg save HKEY_LOCAL_MACHINE\\SOFTWARE C:\\out\\x.dat");
}

#[test]
fn export_key_keeps_its_parts() {
    let subs: Vec<String> = vec![String::from("SOFTWARE")];
    let k = ExportKey::new(RootKey::HkeyUsers, subs.clone());
    assert_eq!(k.root, RootKey::HkeyUsers);
    assert_eq!(k.sub_keys, subs);
    let e = ExportError { msg: String::from("failed") };
    assert_eq!(e.msg(), "failed");
}

#[test]
fn export_arguments_are_grouped_by_root() {
    let args = ExportArgs {
        output_path: String::from("out"),
        keys: vec![
            String::from("hklm\\\\software"),
            String::from("HKEY_LOCAL_MACHINE\\system"),
            String::from("hku\\x"),
            String::from("bad\\y"),
            String::from("HKCU"),
            String::from("hklm\\SOFTWARE"),
        ],
    };
    assert_eq!(args.get_output_path(), "out");
    let (keys, errors) = args.build_export_keys();
    assert_eq!(keys.len(), 2);
    let hklm = keys.iter().find(|k| k.root == RootKey::HkeyLocalMachine).unwrap();
    assert_eq!(hklm.sub_keys, vec![String::from("SOFTWARE"), String::from("SYSTEM")]);
    let hku = keys.iter().find(|k| k.root == RootKey::HkeyUsers).unwrap();
    assert_eq!(hku.sub_keys, vec![String::from("X")]);
    assert_eq!(errors.len(), 2);
    assert_eq!(errors[0].msg(), "No root key with name 'BAD' exists");
    assert_eq!(errors[1].msg(), "No sub key given in 'HKCU'");
}

#[test]
fn key_argument_is_normalized() {
    let (root, sub) = ExportArgs::parse_key("hklm\\\\Software\\\\Classes").unwrap();
    assert_eq!(root, RootKey::HkeyLocalMachine);
    assert_eq!(sub, "SOFTWARE\\CLASSES");
}
