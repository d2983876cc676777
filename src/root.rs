use vstd::prelude::*;

verus! {


/// What `str::to_uppercase` gives on these characters.
pub uninterp spec fn upper_of(s: Seq<char>) -> Seq<char>;

/// Relies on `str::to_uppercase`: the result depends on the characters alone.
#[verifier::external_body]
pub(crate) fn uppercase(s: &str) -> (r: String)
    ensures
        r@ == upper_of(s@),
        s@.len() == 0 ==> r@.len() == 0,
{
    s.to_uppercase()
}

/// Position of the first backslash at or after `i`, or the length.
pub open spec fn backslash_from(v: Seq<char>, i: int) -> int
    decreases v.len() - i,
{
    if i < 0 || i >= v.len() {
        v.len() as int
    } else if v[i] == '\\' {
        i
    } else {
        backslash_from(v, i + 1)
    }
}

/// The first segment of a registry path: everything before its first backslash.
pub open spec fn first_segment(v: Seq<char>) -> Seq<char> {
    v.take(backslash_from(v, 0))
}

/// Position of the first backslash of `s`, or its length.
pub fn find_backslash(s: &str) -> (r: usize)
    ensures
        r == backslash_from(s@, 0),
        r <= s@.len(),
{
    let n = s.unicode_len();
    let mut i: usize = 0;
    while i < n
        invariant
            n == s@.len(),
            i <= n,
            backslash_from(s@, 0) == backslash_from(s@, i as int),
        decreases n - i,
    {
        if s.get_char(i) == '\\' {
            return i;
        }
        i = i + 1;
    }
    i
}

/// The first segment of a registry path, upper-cased.
pub fn root_segment_upper(s: &str) -> (r: String)
    ensures
        r@ == upper_of(first_segment(s@)),
{
    let k = find_backslash(s);
    uppercase(s.substring_char(0, k))
}

/// A root key of the registry.
#[derive(Debug, Clone, Copy, PartialEq, Eq, Hash, Structural)]
pub enum RootKey {
    HkeyLocalMachine,
    HkeyCurrentConfig,
    HkeyClassesRoot,
    HkeyCurrentUser,
    HkeyUsers,
    HkeyPerformanceData,
    HkeyDynData,
}

/// The full name of a root key.
pub open spec fn full_name(k: RootKey) -> Seq<char> {
    match k {
        RootKey::HkeyLocalMachine => "HKEY_LOCAL_MACHINE"@,
        RootKey::HkeyCurrentConfig => "HKEY_CURRENT_CONFIG"@,
        RootKey::HkeyClassesRoot => "HKEY_CLASSES_ROOT"@,
        RootKey::HkeyCurrentUser => "HKEY_CURRENT_USER"@,
        RootKey::HkeyUsers => "HKEY_USERS"@,
        RootKey::HkeyPerformanceData => "HKEY_PERFORMANCE_DATA"@,
        RootKey::HkeyDynData => "HKEY_DYN_DATA"@,
    }
}

/// The short name of a root key.
pub open spec fn short_name(k: RootKey) -> Seq<char> {
    match k {
        RootKey::HkeyLocalMachine => "HKLM"@,
        RootKey::HkeyCurrentConfig => "HKCC"@,
        RootKey::HkeyClassesRoot => "HKCR"@,
        RootKey::HkeyCurrentUser => "HKCU"@,
        RootKey::HkeyUsers => "HKU"@,
        RootKey::HkeyPerformanceData => "HKPD"@,
        RootKey::HkeyDynData => "HKDD"@,
    }
}

/// The root key that a full or short upper-case name denotes.
pub open spec fn root_named(n: Seq<char>) -> Option<RootKey> {
    if n == "HKEY_LOCAL_MACHINE"@ || n == "HKLM"@ {
        Some(RootKey::HkeyLocalMachine)
    } else if n == "HKEY_CURRENT_CONFIG"@ || n == "HKCC"@ {
        Some(RootKey::HkeyCurrentConfig)
    } else if n == "HKEY_CLASSES_ROOT"@ || n == "HKCR"@ {
        Some(RootKey::HkeyClassesRoot)
    } else if n == "HKEY_CURRENT_USER"@ || n == "HKCU"@ {
        Some(RootKey::HkeyCurrentUser)
    } else if n == "HKEY_USERS"@ || n == "HKU"@ {
        Some(RootKey::HkeyUsers)
    } else if n == "HKEY_PERFORMANCE_DATA"@ || n == "HKPD"@ {
        Some(RootKey::HkeyPerformanceData)
    } else if n == "HKEY_DYN_DATA"@ || n == "HKDD"@ {
        Some(RootKey::HkeyDynData)
    } else {
        None
    }
}

/// Whether the text of `s` is `lit`.
pub fn text_is(s: &String, lit: &str) -> (r: bool)
    ensures
        r == (s@ == lit@),
{
    *s == String::from_str(lit)
}

/// The message of a failed parse of a root name.
pub open spec fn unknown_root_msg(name: Seq<char>) -> Seq<char> {
    "No root key with name '"@ + name + "' exists"@
}

/// The message of a failed parse of a root name.
pub fn unknown_root_message(name: &str) -> (r: String)
    ensures
        r@ == unknown_root_msg(name@),
{
    let mut msg = String::from_str("No root key with name '");
    msg.append(name);
    msg.append("' exists");
    msg
}

impl RootKey {
    /// The root key's full name.
    pub fn get_name(&self) -> (r: &str)
        ensures
            r@ == full_name(*self),
    {
        match self {
            RootKey::HkeyLocalMachine => "HKEY_LOCAL_MACHINE",
            RootKey::HkeyCurrentConfig => "HKEY_CURRENT_CONFIG",
            RootKey::HkeyClassesRoot => "HKEY_CLASSES_ROOT",
            RootKey::HkeyCurrentUser => "HKEY_CURRENT_USER",
            RootKey::HkeyUsers => "HKEY_USERS",
            RootKey::HkeyPerformanceData => "HKEY_PERFORMANCE_DATA",
            RootKey::HkeyDynData => "HKEY_DYN_DATA",
        }
    }

    /// The root key's short name.
    pub fn get_name_short(&self) -> (r: &str)
        ensures
            r@ == short_name(*self),
    {
        match self {
            RootKey::HkeyLocalMachine => "HKLM",
            RootKey::HkeyCurrentConfig => "HKCC",
            RootKey::HkeyClassesRoot => "HKCR",
            RootKey::HkeyCurrentUser => "HKCU",
            RootKey::HkeyUsers => "HKU",
            RootKey::HkeyPerformanceData => "HKPD",
            RootKey::HkeyDynData => "HKDD",
        }
    }

    /// The root key that an upper-case full or short name denotes.
    pub fn from_name(name: &String) -> (r: Option<RootKey>)
        ensures
            r == root_named(name@),
    {
        if text_is(name, "HKEY_LOCAL_MACHINE") || text_is(name, "HKLM") {
            Some(RootKey::HkeyLocalMachine)
        } else if text_is(name, "HKEY_CURRENT_CONFIG") || text_is(name, "HKCC") {
            Some(RootKey::HkeyCurrentConfig)
        } else if text_is(name, "HKEY_CLASSES_ROOT") || text_is(name, "HKCR") {
            Some(RootKey::HkeyClassesRoot)
        } else if text_is(name, "HKEY_CURRENT_USER") || text_is(name, "HKCU") {
            Some(RootKey::HkeyCurrentUser)
        } else if text_is(name, "HKEY_USERS") || text_is(name, "HKU") {
            Some(RootKey::HkeyUsers)
        } else if text_is(name, "HKEY_PERFORMANCE_DATA") || text_is(name, "HKPD") {
            Some(RootKey::HkeyPerformanceData)
        } else if text_is(name, "HKEY_DYN_DATA") || text_is(name, "HKDD") {
            Some(RootKey::HkeyDynData)
        } else {
            None
        }
    }

    /// The root key that a registry path starts with, compared without regard
    /// to case; its first segment ends at the first backslash.
    pub fn parse(value: &str) -> (r: Result<RootKey, RootKeyParseError>)
        ensures
            match root_named(upper_of(first_segment(value@))) {
                Some(k) => r == Ok::<RootKey, RootKeyParseError>(k),
                None => r is Err && r->Err_0.msg@ == unknown_root_msg(upper_of(first_segment(value@))),
            },
    {
        let upper = root_segment_upper(value);
        match RootKey::from_name(&upper) {
            Some(k) => Ok(k),
            None => Err(RootKeyParseError { msg: unknown_root_message(upper.as_str()) }),
        }
    }
}

/// Why a registry path named no root key.
#[derive(Debug)]
pub struct RootKeyParseError {
    pub msg: String,
}

impl RootKeyParseError {
    /// The message.
    pub fn msg(&self) -> (r: &str)
        ensures
            r@ == self.msg@,
    {
        self.msg.as_str()
    }
}

} // verus!
