use vstd::prelude::*;
use crate::root::{full_name, RootKey};

verus! {

/// Why exporting a key failed.
#[derive(Debug)]
pub struct ExportError {
    pub msg: String,
}

impl ExportError {
    /// The message.
    pub fn msg(&self) -> (r: &str)
        ensures
            r@ == self.msg@,
    {
        self.msg.as_str()
    }
}

/// A root key and the sub-key paths under it to export, each path once.
#[derive(Debug)]
pub struct ExportKey {
    pub root: RootKey,
    pub sub_keys: Vec<String>,
}

/// The registry path of a sub-key: the root's full name, a backslash, the sub-key.
pub open spec fn registry_path_of(root: RootKey, sub_key: Seq<char>) -> Seq<char> {
    full_name(root) + "\\"@ + sub_key
}

/// The file that a sub-key is saved to: root name, a dash, the sub-key, `.dat`.
pub open spec fn export_file_name_of(root: RootKey, sub_key: Seq<char>) -> Seq<char> {
    full_name(root) + "-"@ + sub_key + ".dat"@
}

/// The shell command that saves a registry path to a file.
pub open spec fn save_command_of(path: Seq<char>, file: Seq<char>) -> Seq<char> {
    "reg save "@ + path + " "@ + file
}

impl ExportKey {
    /// An export of `sub_keys` under `root`.
    pub fn new(root: RootKey, sub_keys: Vec<String>) -> (r: ExportKey)
        ensures
            r.root == root,
            r.sub_keys == sub_keys,
    {
        ExportKey { root, sub_keys }
    }
}

/// The registry path of `sub_key` under `root`.
pub fn registry_path(root: RootKey, sub_key: &str) -> (r: String)
    ensures
        r@ == registry_path_of(root, sub_key@),
{
    let mut s = String::from_str(root.get_name());
    s.append("\\");
    s.append(sub_key);
    s
}

/// The name of the file that `sub_key` under `root` is saved to.
pub fn export_file_name(root: RootKey, sub_key: &str) -> (r: String)
    ensures
        r@ == export_file_name_of(root, sub_key@),
{
    let mut s = String::from_str(root.get_name());
    s.append("-");
    s.append(sub_key);
    s.append(".dat");
    s
}

/// The command that saves the registry path `path` to the file `file`.
pub fn save_command(path: &str, file: &str) -> (r: String)
    ensures
        r@ == save_command_of(path@, file@),
{
    let mut s = String::from_str("reg save ");
    s.append(path);
    s.append(" ");
    s.append(file);
    s
}

} // verus!
