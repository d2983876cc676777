use vstd::prelude::*;
use crate::root::{first_segment, root_segment_upper, text_is, unknown_root_message, unknown_root_msg, upper_of};

verus! {

/// A root key of the registry, by its full or short name.
#[derive(Debug, Clone, Copy, PartialEq, Eq, Hash, Structural)]
pub enum Key {
    HkeyLocalMachine,
    HkeyCurrentConfig,
    HkeyClassesRoot,
    HkeyCurrentUser,
    HkeyUsers,
    HkeyPerformanceData,
    HkeyDynData,
}

/// The full name of a key.
pub open spec fn full_name(k: Key) -> Seq<char> {
    match k {
        Key::HkeyLocalMachine => "HKEY_LOCAL_MACHINE"@,
        Key::HkeyCurrentConfig => "HKEY_CURRENT_CONFIG"@,
        Key::HkeyClassesRoot => "HKEY_CLASSES_ROOT"@,
        Key::HkeyCurrentUser => "HKEY_CURRENT_USER"@,
        Key::HkeyUsers => "HKEY_USERS"@,
        Key::HkeyPerformanceData => "HKEY_PERFORMANCE_DATA"@,
        Key::HkeyDynData => "HKEY_DYN_DATA"@,
    }
}

/// The short name of a key.
pub open spec fn short_name(k: Key) -> Seq<char> {
    match k {
        Key::HkeyLocalMachine => "HKLM"@,
        Key::HkeyCurrentConfig => "HKCC"@,
        Key::HkeyClassesRoot => "HKCR"@,
        Key::HkeyCurrentUser => "HKCU"@,
        Key::HkeyUsers => "HKU"@,
        Key::HkeyPerformanceData => "HKPD"@,
        Key::HkeyDynData => "HKDD"@,
    }
}

/// The key that an upper-case name denotes.
pub open spec fn key_named(n: Seq<char>) -> Option<Key> {
    if n == "HKEY_LOCAL_MACHINE"@ || n == "HKLM"@ {
        Some(Key::HkeyLocalMachine)
    } else if n == "HKEY_CURRENT_CONFIG"@ || n == "HKCC"@ {
        Some(Key::HkeyCurrentConfig)
    } else if n == "HKEY_CLASSES_ROOT"@ || n == "HKCR"@ {
        Some(Key::HkeyClassesRoot)
    } else if n == "HKEY_CURRENT_USER"@ || n == "HKCU"@ {
        Some(Key::HkeyCurrentUser)
    } else if n == "HKEY_USERS"@ || n == "HKU"@ {
        Some(Key::HkeyUsers)
    } else if n == "HKEY_PERFORMANCE_DATA"@ || n == "HKPD"@ {
        Some(Key::HkeyPerformanceData)
    } else if n == "HKEY_DYN_DATA"@ || n == "HKDD"@ {
        Some(Key::HkeyDynData)
    } else {
        None
    }
}

impl Key {
    /// The key's full name.
    pub fn get_name(&self) -> (r: &str)
        ensures
            r@ == full_name(*self),
    {
        match self {
            Key::HkeyLocalMachine => "HKEY_LOCAL_MACHINE",
            Key::HkeyCurrentConfig => "HKEY_CURRENT_CONFIG",
            Key::HkeyClassesRoot => "HKEY_CLASSES_ROOT",
            Key::HkeyCurrentUser => "HKEY_CURRENT_USER",
            Key::HkeyUsers => "HKEY_USERS",
            Key::HkeyPerformanceData => "HKEY_PERFORMANCE_DATA",
            Key::HkeyDynData => "HKEY_DYN_DATA",
        }
    }

    /// The key's short name.
    pub fn get_name_short(&self) -> (r: &str)
        ensures
            r@ == short_name(*self),
    {
        match self {
            Key::HkeyLocalMachine => "HKLM",
            Key::HkeyCurrentConfig => "HKCC",
            Key::HkeyClassesRoot => "HKCR",
            Key::HkeyCurrentUser => "HKCU",
            Key::HkeyUsers => "HKU",
            Key::HkeyPerformanceData => "HKPD",
            Key::HkeyDynData => "HKDD",
        }
    }

    /// The key that an upper-case name denotes.
    pub fn from_name(name: &String) -> (r: Option<Key>)
        ensures
            r == key_named(name@),
    {
        if text_is(name, "HKEY_LOCAL_MACHINE") || text_is(name, "HKLM") {
            Some(Key::HkeyLocalMachine)
        } else if text_is(name, "HKEY_CURRENT_CONFIG") || text_is(name, "HKCC") {
            Some(Key::HkeyCurrentConfig)
        } else if text_is(name, "HKEY_CLASSES_ROOT") || text_is(name, "HKCR") {
            Some(Key::HkeyClassesRoot)
        } else if text_is(name, "HKEY_CURRENT_USER") || text_is(name, "HKCU") {
            Some(Key::HkeyCurrentUser)
        } else if text_is(name, "HKEY_USERS") || text_is(name, "HKU") {
            Some(Key::HkeyUsers)
        } else if text_is(name, "HKEY_PERFORMANCE_DATA") || text_is(name, "HKPD") {
            Some(Key::HkeyPerformanceData)
        } else if text_is(name, "HKEY_DYN_DATA") || text_is(name, "HKDD") {
            Some(Key::HkeyDynData)
        } else {
            None
        }
    }

    /// The key that a registry path starts with, compared without regard to
    /// case; its first segment ends at the first backslash.
    pub fn parse(value: &str) -> (r: Result<Key, KeyParseError>)
        ensures
            match key_named(upper_of(first_segment(value@))) {
                Some(k) => r == Ok::<Key, KeyParseError>(k),
                None => r is Err && r->Err_0.msg@ == unknown_root_msg(upper_of(first_segment(value@))),
            },
    {
        let upper = root_segment_upper(value);
        match Key::from_name(&upper) {
            Some(k) => Ok(k),
            None => Err(KeyParseError { msg: unknown_root_message(upper.as_str()) }),
        }
    }
}

/// Why a registry path named no root key.
#[derive(Debug)]
pub struct KeyParseError {
    pub msg: String,
}

impl KeyParseError {
    /// The message.
    pub fn msg(&self) -> (r: &str)
        ensures
            r@ == self.msg@,
    {
        self.msg.as_str()
    }
}

} // verus!
