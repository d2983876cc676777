use vstd::prelude::*;

verus! {

/// A root key of the registry whose name is handed out as an owned string.
#[derive(Debug, Clone, Copy, PartialEq, Eq, Hash, Structural)]
pub enum Key {
    HkeyLocalMachine,
    HkeyCurrentConfig,
    HkeyClassesRoot,
    HkeyCurrentUser,
    HkeyUsers,
    HkeyPerformanceData,
    HkeyDynData,
}

/// The full name of a key.
pub open spec fn full_name(k: Key) -> Seq<char> {
    match k {
        Key::HkeyLocalMachine => "HKEY_LOCAL_MACHINE"@,
        Key::HkeyCurrentConfig => "HKEY_CURRENT_CONFIG"@,
        Key::HkeyClassesRoot => "HKEY_CLASSES_ROOT"@,
        Key::HkeyCurrentUser => "HKEY_CURRENT_USER"@,
        Key::HkeyUsers => "HKEY_USERS"@,
        Key::HkeyPerformanceData => "HKEY_PERFORMANCE_DATA"@,
        Key::HkeyDynData => "HKEY_DYN_DATA"@,
    }
}

impl Key {
    /// The key's full name.
    pub fn get_name(&self) -> (r: String)
        ensures
            r@ == full_name(*self),
    {
        match self {
            Key::HkeyLocalMachine => String::from_str("HKEY_LOCAL_MACHINE"),
            Key::HkeyCurrentConfig => String::from_str("HKEY_CURRENT_CONFIG"),
            Key::HkeyClassesRoot => String::from_str("HKEY_CLASSES_ROOT"),
            Key::HkeyCurrentUser => String::from_str("HKEY_CURRENT_USER"),
            Key::HkeyUsers => String::from_str("HKEY_USERS"),
            Key::HkeyPerformanceData => String::from_str("HKEY_PERFORMANCE_DATA"),
            Key::HkeyDynData => String::from_str("HKEY_DYN_DATA"),
        }
    }
}

} // verus!
