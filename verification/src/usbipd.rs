//! What is known of the usbipd-win installation: the search of the Windows
//! uninstall registry for it, the choice of the PowerShell script that lists
//! the devices by the installed version, and the state that keeps the result.
use vstd::prelude::*;

use crate::error::Error;
use crate::text::{
    chars_of, contains_seq, contains_str, find_char, first_index, parse_u32_range,
    parse_u32_spec,
};
use crate::usb_device::opt_view;

verus! {

/// The registry key of the 64-bit uninstall entries.
pub const WIN64_UNINSTALL_KEY: &'static str = "SOFTWARE\\Microsoft\\Windows\\CurrentVersion\\Uninstall";

/// The registry key of the 32-bit uninstall entries.
pub const WIN32_UNINSTALL_KEY: &'static str =
    "SOFTWARE\\Wow6432Node\\Microsoft\\Windows\\CurrentVersion\\Uninstall";

/// The display name that the usbipd-win entry holds.
pub const USBIPD_APP_NAME: &'static str = "usbipd-win";

/// The script that lists the devices with usbipd-win 4.
pub const USBIPD4_GET_DEVICES_SCRIPT: &'static str =
    "Import-Module $env:ProgramW6432'\\usbipd-win\\PowerShell\\Usbipd.Powershell.dll';Get-UsbipdDevice";

/// The script that lists the devices with usbipd-win 5 and later.
pub const USBIPD5_GET_DEVICES_SCRIPT: &'static str =
    "Import-Module $env:ProgramW6432'\\usbipd-win\\Usbipd.Powershell.dll';Get-UsbipdDevice";

/// One subkey of an uninstall key, with the values that could be read from
/// it (`None` for a value that is missing or could not be read).
#[derive(Debug, Clone)]
pub struct RegistryEntry {
    pub display_name: Option<String>,
    pub install_location: Option<String>,
    pub display_version: Option<String>,
    pub publisher: Option<String>,
}

/// What the search found of an application: its `InstallLocation`,
/// `DisplayVersion` and `Publisher` values, each where it was present.
#[derive(Debug, Clone)]
pub struct RegistryInfo {
    pub install_location: Option<String>,
    pub display_version: Option<String>,
    pub publisher: Option<String>,
}

/// A `RegistryInfo` with its strings as character sequences.
pub struct RegistryInfoView {
    pub install_location: Option<Seq<char>>,
    pub display_version: Option<Seq<char>>,
    pub publisher: Option<Seq<char>>,
}

impl View for RegistryInfo {
    type V = RegistryInfoView;

    open spec fn view(&self) -> RegistryInfoView {
        RegistryInfoView {
            install_location: opt_view(self.install_location),
            display_version: opt_view(self.display_version),
            publisher: opt_view(self.publisher),
        }
    }
}

/// The entry's display name holds `app_name`.
pub open spec fn entry_matches(e: RegistryEntry, app_name: Seq<char>) -> bool {
    match e.display_name {
        Some(d) => contains_seq(d@, app_name),
        None => false,
    }
}

/// The information that the entry `e` gives.
pub open spec fn entry_info(e: RegistryEntry) -> RegistryInfoView {
    RegistryInfoView {
        install_location: opt_view(e.install_location),
        display_version: opt_view(e.display_version),
        publisher: opt_view(e.publisher),
    }
}

/// `i` is the first entry whose display name holds `app_name`.
pub open spec fn is_first_match(entries: Seq<RegistryEntry>, app_name: Seq<char>, i: int) -> bool {
    &&& 0 <= i < entries.len()
    &&& entry_matches(entries[i], app_name)
    &&& forall|j: int| 0 <= j < i ==> !entry_matches(#[trigger] entries[j], app_name)
}

fn clone_opt(o: &Option<String>) -> (r: Option<String>)
    ensures
        opt_view(r) == opt_view(*o),
{
    match o {
        Some(s) => Some(s.clone()),
        None => None,
    }
}

/// Searches the subkeys of an uninstall key for the application whose
/// display name holds `app_name`: the first such entry gives its
/// information; where none does, the application is not installed.
pub fn check_registry_key(entries: &Vec<RegistryEntry>, app_name: &str) -> (r: Result<
    Option<RegistryInfo>,
    Error,
>)
    ensures
        r is Err <==> forall|i: int| 0 <= i < entries.len() ==> !entry_matches(#[trigger] entries@[i], app_name@),
        r is Err ==> r == Err::<Option<RegistryInfo>, Error>(Error::UsbIPDNotFound),
        r is Ok ==> r->Ok_0 is Some,
        r matches Ok(Some(info)) ==> exists|i: int|
            is_first_match(entries@, app_name@, i) && #[trigger] entry_info(entries@[i]) == info@,
{
    let mut i: usize = 0;
    while i < entries.len()
        invariant
            i <= entries.len(),
            forall|j: int| 0 <= j < i ==> !entry_matches(#[trigger] entries@[j], app_name@),
        decreases entries.len() - i,
    {
        let e = &entries[i];
        match &e.display_name {
            Some(d) => {
                if contains_str(d.as_str(), app_name) {
                    let info = RegistryInfo {
                        install_location: clone_opt(&e.install_location),
                        display_version: clone_opt(&e.display_version),
                        publisher: clone_opt(&e.publisher),
                    };
                    assert(is_first_match(entries@, app_name@, i as int));
                    assert(entry_info(entries@[i as int]) == info@);
                    return Ok(Some(info));
                }
            },
            None => {},
        }
        i = i + 1;
    }
    Err(Error::UsbIPDNotFound)
}

/// The script that lists the devices for the usbipd-win version `version`:
/// a version without a `'.'` is too low; so is one whose major number (the
/// text before the first `'.'`, read as a `u32`, 0 where it is none) is
/// below 4; 4 has its own script, every later version the other one.
pub open spec fn select_script_spec(version: Seq<char>) -> Result<Seq<char>, Error> {
    let i = first_index(version, '.');
    if i < 0 {
        Err(Error::UsbIPDLowVersion)
    } else {
        let major = match parse_u32_spec(version.subrange(0, i)) {
            Some(m) => m,
            None => 0,
        };
        if major < 4 {
            Err(Error::UsbIPDLowVersion)
        } else if major < 5 {
            Ok(USBIPD4_GET_DEVICES_SCRIPT@)
        } else {
            Ok(USBIPD5_GET_DEVICES_SCRIPT@)
        }
    }
}

/// Chooses the devices script for the installed version.
pub fn select_devices_script(display_version: &str) -> (r: Result<&'static str, Error>)
    ensures
        match r {
            Ok(s) => select_script_spec(display_version@) == Ok::<Seq<char>, Error>(s@),
            Err(e) => select_script_spec(display_version@) == Err::<Seq<char>, Error>(e),
        },
{
    let v = chars_of(display_version);
    match find_char(&v, 0, v.len(), '.') {
        None => {
            assert(v@.subrange(0, v.len() as int) =~= v@);
            Err(Error::UsbIPDLowVersion)
        },
        Some(dot) => {
            assert(v@.subrange(0, v.len() as int) =~= v@);
            let major = match parse_u32_range(&v, 0, dot) {
                Some(m) => m,
                None => 0,
            };
            if major < 4 {
                Err(Error::UsbIPDLowVersion)
            } else if major < 5 {
                Ok(USBIPD4_GET_DEVICES_SCRIPT)
            } else {
                Ok(USBIPD5_GET_DEVICES_SCRIPT)
            }
        },
    }
}

/// The installation that a search result gives: its location and version,
/// each empty where it is missing.
pub open spec fn install_pair(info: Option<RegistryInfoView>) -> (Seq<char>, Seq<char>) {
    match info {
        Some(i) => (value_or_empty(i.install_location), value_or_empty(i.display_version)),
        None => (Seq::<char>::empty(), Seq::<char>::empty()),
    }
}

/// The text, or the empty text.
pub open spec fn value_or_empty(o: Option<Seq<char>>) -> Seq<char> {
    match o {
        Some(s) => s,
        None => Seq::<char>::empty(),
    }
}

/// Both the location and the version are known.
pub open spec fn pair_complete(p: (Seq<char>, Seq<char>)) -> bool {
    p.0.len() > 0 && p.1.len() > 0
}

/// The usbipd executable of the installation folder `dir`: `usbipd.exe`
/// joined to it, with a `\\` between them where `dir` does not end in a
/// separator.
pub open spec fn usbipd_executable(dir: Seq<char>) -> Seq<char> {
    if dir.len() > 0 && (dir.last() == '\\' || dir.last() == '/') {
        dir + "usbipd.exe"@
    } else {
        dir + "\\usbipd.exe"@
    }
}

/// What is known of the usbipd-win installation, as character sequences.
pub struct UsbipdState {
    pub installation_path: Seq<char>,
    pub version: Seq<char>,
    pub devices_script: Seq<char>,
}

/// Either nothing is known yet, or the installation path is known and the
/// devices script is the one that its version selects.
pub open spec fn state_wf(st: UsbipdState) -> bool {
    ||| {
        &&& st.installation_path.len() == 0
        &&& st.version.len() == 0
        &&& st.devices_script.len() == 0
    }
    ||| {
        &&& st.installation_path.len() > 0
        &&& select_script_spec(st.version) == Ok::<Seq<char>, Error>(st.devices_script)
    }
}

/// The installation is known.
pub open spec fn installation_known(st: UsbipdState) -> bool {
    st.installation_path.len() > 0 && st.version.len() > 0
}

/// The state and the answer of the installation check, given what the
/// 64-bit uninstall key gave (`primary`) and what the 32-bit one gave
/// (`fallback`: `None` where that key could not be opened). A known
/// installation is kept as it is. Otherwise the 64-bit result is taken where
/// it has both location and version; else the 32-bit key is read: where it
/// cannot be opened usbipd is not found, where it holds an entry that entry
/// replaces both values. Without both values usbipd is not found; a version
/// too low is refused; else the state records the location, the version and
/// the script that the version selects. An error leaves the state as it was.
pub open spec fn installation_check_spec(
    st: UsbipdState,
    primary: Option<RegistryInfoView>,
    fallback: Option<Option<RegistryInfoView>>,
) -> (UsbipdState, Result<bool, Error>) {
    if installation_known(st) {
        (st, Ok(true))
    } else {
        let p = install_pair(primary);
        let q = if pair_complete(p) {
            Some(p)
        } else {
            match fallback {
                None => None,
                Some(None) => Some(p),
                Some(Some(i)) => Some(install_pair(Some(i))),
            }
        };
        match q {
            None => (st, Err(Error::UsbIPDNotFound)),
            Some(q) => if !pair_complete(q) {
                (st, Err(Error::UsbIPDNotFound))
            } else {
                match select_script_spec(q.1) {
                    Err(e) => (st, Err(e)),
                    Ok(script) => (
                        UsbipdState {
                            installation_path: q.0,
                            version: q.1,
                            devices_script: st.devices_script + script,
                        },
                        Ok(true),
                    ),
                }
            },
        }
    }
}

/// The devices script of the state: the recorded one, or usbipd is not
/// found where none is recorded.
pub open spec fn devices_script_spec(st: UsbipdState) -> Result<Seq<char>, Error> {
    if st.devices_script.len() == 0 {
        Err(Error::UsbIPDNotFound)
    } else {
        Ok(st.devices_script)
    }
}

/// The view of an optional registry result.
pub open spec fn opt_info_view(o: Option<RegistryInfo>) -> Option<RegistryInfoView> {
    match o {
        Some(i) => Some(i@),
        None => None,
    }
}

/// The view of the result of reading the 32-bit uninstall key.
pub open spec fn fallback_view(o: Option<Option<RegistryInfo>>) -> Option<
    Option<RegistryInfoView>,
> {
    match o {
        Some(i) => Some(opt_info_view(i)),
        None => None,
    }
}

/// What is known of the usbipd-win installation: where it is, its version,
/// and the script that lists its devices.
pub struct USBIPD {
    installation_path: String,
    version: String,
    devices_script: String,
}

impl View for USBIPD {
    type V = UsbipdState;

    closed spec fn view(&self) -> UsbipdState {
        UsbipdState {
            installation_path: self.installation_path@,
            version: self.version@,
            devices_script: self.devices_script@,
        }
    }
}

impl USBIPD {
    #[verifier::type_invariant]
    spec fn inv(self) -> bool {
        state_wf(self@)
    }

    /// Nothing known yet.
    pub fn new() -> (r: USBIPD)
        ensures
            r@.installation_path.len() == 0,
            r@.version.len() == 0,
            r@.devices_script.len() == 0,
    {
        USBIPD {
            installation_path: String::new(),
            version: String::new(),
            devices_script: String::new(),
        }
    }

    /// Every state of this type is well formed.
    pub fn well_formed(&self) -> (r: bool)
        ensures
            r,
            state_wf(self@),
    {
        proof {
            use_type_invariant(self);
        }
        true
    }

    /// Where usbipd-win is installed; empty while unknown.
    pub fn installation_path(&self) -> (r: &str)
        ensures
            r@ == self@.installation_path,
    {
        self.installation_path.as_str()
    }

    /// The usbipd executable: `usbipd.exe` in the installation folder;
    /// usbipd is not found while the installation is unknown.
    pub fn path(&self) -> (r: Result<String, Error>)
        ensures
            match r {
                Ok(p) => self@.installation_path.len() > 0 && p@ == usbipd_executable(
                    self@.installation_path,
                ),
                Err(e) => self@.installation_path.len() == 0 && e == Error::UsbIPDNotFound,
            },
    {
        let dir = self.installation_path.as_str();
        let n = dir.unicode_len();
        if n == 0 {
            return Err(Error::UsbIPDNotFound);
        }
        let last = dir.get_char(n - 1);
        let mut p = String::from_str(dir);
        if last == '\\' || last == '/' {
            p.append("usbipd.exe");
        } else {
            p.append("\\usbipd.exe");
        }
        Ok(p)
    }

    /// The installed version; empty while unknown.
    pub fn version(&self) -> (r: &str)
        ensures
            r@ == self@.version,
    {
        self.version.as_str()
    }

    /// The installation check has yet to find usbipd-win (the devices
    /// script is unknown).
    pub fn needs_installation_check(&self) -> (r: bool)
        ensures
            r == (self@.devices_script.len() == 0),
    {
        self.devices_script.as_str().unicode_len() == 0
    }

    /// The 32-bit uninstall key has to be read: the installation is not
    /// known and the 64-bit result lacks the location or the version.
    pub fn needs_registry_fallback(&self, primary: &Option<RegistryInfo>) -> (r: bool)
        ensures
            r == (!installation_known(self@) && !pair_complete(
                install_pair(opt_info_view(*primary)),
            )),
    {
        if self.installation_path.as_str().unicode_len() > 0
            && self.version.as_str().unicode_len() > 0 {
            return false;
        }
        let (loc, ver) = install_strings(primary);
        !(loc.as_str().unicode_len() > 0 && ver.as_str().unicode_len() > 0)
    }

    /// Records what the search of the uninstall keys found (see
    /// `installation_check_spec`).
    pub fn usbipd_installation_check(
        &mut self,
        primary: Option<RegistryInfo>,
        fallback: Option<Option<RegistryInfo>>,
    ) -> (r: Result<bool, Error>)
        ensures
            (final(self)@, r) == installation_check_spec(
                old(self)@,
                opt_info_view(primary),
                fallback_view(fallback),
            ),
    {
        proof {
            use_type_invariant(&*self);
        }
        if self.installation_path.as_str().unicode_len() > 0
            && self.version.as_str().unicode_len() > 0 {
            return Ok(true);
        }
        let (mut install_location, mut display_version) = install_strings(&primary);
        if install_location.as_str().unicode_len() == 0
            || display_version.as_str().unicode_len() == 0 {
            match fallback {
                None => {
                    return Err(Error::UsbIPDNotFound);
                },
                Some(None) => {},
                Some(Some(info)) => {
                    let (loc, ver) = install_strings(&Some(info));
                    install_location = loc;
                    display_version = ver;
                },
            }
        }
        if install_location.as_str().unicode_len() == 0
            || display_version.as_str().unicode_len() == 0 {
            return Err(Error::UsbIPDNotFound);
        }
        let script = select_devices_script(display_version.as_str())?;
        let mut devices_script = self.devices_script.clone();
        devices_script.append(script);
        assert(devices_script@ == script@);
        *self = USBIPD {
            installation_path: install_location,
            version: display_version,
            devices_script,
        };
        Ok(true)
    }
}

/// The location and the version that a search result gives, each empty
/// where it is missing.
fn install_strings(info: &Option<RegistryInfo>) -> (r: (String, String))
    ensures
        (r.0@, r.1@) == install_pair(opt_info_view(*info)),
{
    match info {
        Some(i) => {
            let loc = match &i.install_location {
                Some(s) => s.clone(),
                None => String::new(),
            };
            let ver = match &i.display_version {
                Some(s) => s.clone(),
                None => String::new(),
            };
            (loc, ver)
        },
        None => (String::new(), String::new()),
    }
}

/// The devices script, once the installation check has found usbipd-win.
pub fn get_usbipd_powershell_script(usbipd: &USBIPD) -> (r: Result<String, Error>)
    ensures
        match r {
            Ok(s) => devices_script_spec(usbipd@) == Ok::<Seq<char>, Error>(s@),
            Err(e) => devices_script_spec(usbipd@) == Err::<Seq<char>, Error>(e),
        },
{
    if usbipd.needs_installation_check() {
        Err(Error::UsbIPDNotFound)
    } else {
        Ok(usbipd.devices_script.clone())
    }
}

/// A script that a version selects is never empty.
pub proof fn lemma_selected_script_non_empty(version: Seq<char>)
    ensures
        select_script_spec(version) matches Ok(script) ==> script.len() > 0 && version.len() > 0,
{
    reveal_strlit(
        "Import-Module $env:ProgramW6432'\\usbipd-win\\PowerShell\\Usbipd.Powershell.dll';Get-UsbipdDevice",
    );
    reveal_strlit(
        "Import-Module $env:ProgramW6432'\\usbipd-win\\Usbipd.Powershell.dll';Get-UsbipdDevice",
    );
}

/// The installation check keeps the state well formed.
pub proof fn law_check_keeps_state_well_formed(
    st: UsbipdState,
    primary: Option<RegistryInfoView>,
    fallback: Option<Option<RegistryInfoView>>,
)
    requires
        state_wf(st),
    ensures
        state_wf(installation_check_spec(st, primary, fallback).0),
{
    let (st2, r) = installation_check_spec(st, primary, fallback);
    lemma_selected_script_non_empty(st.version);
    if !installation_known(st) && r is Ok {
        assert(st.devices_script.len() == 0);
        assert(st.devices_script + select_script_spec(st2.version)->Ok_0 =~= select_script_spec(
            st2.version,
        )->Ok_0);
    }
}

/// What a successful check records is read back: afterwards the devices
/// script is the one that the recorded version selects, and it is not empty.
pub proof fn law_script_readable_after_check(
    st: UsbipdState,
    primary: Option<RegistryInfoView>,
    fallback: Option<Option<RegistryInfoView>>,
)
    requires
        state_wf(st),
        installation_check_spec(st, primary, fallback).1 is Ok,
    ensures
        ({
            let st2 = installation_check_spec(st, primary, fallback).0;
            &&& installation_known(st2)
            &&& select_script_spec(st2.version) == Ok::<Seq<char>, Error>(st2.devices_script)
            &&& devices_script_spec(st2) == Ok::<Seq<char>, Error>(st2.devices_script)
            &&& st2.devices_script.len() > 0
        }),
{
    law_check_keeps_state_well_formed(st, primary, fallback);
    let st2 = installation_check_spec(st, primary, fallback).0;
    lemma_selected_script_non_empty(st2.version);
    lemma_selected_script_non_empty(st.version);
}

/// A check never answers `Ok(false)`, and a refused check leaves the state
/// as it was.
pub proof fn law_failed_check_keeps_state(
    st: UsbipdState,
    primary: Option<RegistryInfoView>,
    fallback: Option<Option<RegistryInfoView>>,
)
    ensures
        installation_check_spec(st, primary, fallback).1 != Ok::<bool, Error>(false),
        installation_check_spec(st, primary, fallback).1 is Err ==> installation_check_spec(
            st,
            primary,
            fallback,
        ).0 == st,
{
}

/// Once the installation is known, checking again changes nothing and
/// succeeds, whatever the registry says.
pub proof fn law_check_idempotent(
    st: UsbipdState,
    primary: Option<RegistryInfoView>,
    fallback: Option<Option<RegistryInfoView>>,
    primary2: Option<RegistryInfoView>,
    fallback2: Option<Option<RegistryInfoView>>,
)
    requires
        state_wf(st),
        installation_check_spec(st, primary, fallback).1 is Ok,
    ensures
        ({
            let st2 = installation_check_spec(st, primary, fallback).0;
            installation_check_spec(st2, primary2, fallback2) == (st2, Ok::<bool, Error>(true))
        }),
{
    law_script_readable_after_check(st, primary, fallback);
}

/// Where the 64-bit key gives both the location and the version, what the
/// 32-bit key gives does not matter.
pub proof fn law_complete_primary_ignores_fallback(
    st: UsbipdState,
    primary: Option<RegistryInfoView>,
    fallback: Option<Option<RegistryInfoView>>,
    fallback2: Option<Option<RegistryInfoView>>,
)
    requires
        pair_complete(install_pair(primary)),
    ensures
        installation_check_spec(st, primary, fallback) == installation_check_spec(
            st,
            primary,
            fallback2,
        ),
{
}

/// The script follows the major version: a version without `'.'` is too
/// low; where the text before the first `'.'` reads as the number `m`,
/// `m` below 4 is too low, 4 gets the usbipd-win 4 script, 5 and later the
/// other; a major that is no number reads as 0, too low.
pub proof fn law_script_by_major_version(v: Seq<char>)
    ensures
        first_index(v, '.') < 0 ==> select_script_spec(v) == Err::<Seq<char>, Error>(
            Error::UsbIPDLowVersion,
        ),
        first_index(v, '.') >= 0 ==> match parse_u32_spec(v.subrange(0, first_index(v, '.'))) {
            Some(m) => {
                &&& m < 4 ==> select_script_spec(v) == Err::<Seq<char>, Error>(
                    Error::UsbIPDLowVersion,
                )
                &&& m == 4 ==> select_script_spec(v) == Ok::<Seq<char>, Error>(
                    USBIPD4_GET_DEVICES_SCRIPT@,
                )
                &&& m >= 5 ==> select_script_spec(v) == Ok::<Seq<char>, Error>(
                    USBIPD5_GET_DEVICES_SCRIPT@,
                )
            },
            None => select_script_spec(v) == Err::<Seq<char>, Error>(Error::UsbIPDLowVersion),
        },
{
}

/// Where the 64-bit key lacks the location or the version, an entry of the
/// 32-bit key counts exactly as if the 64-bit key had given it.
pub proof fn law_fallback_entry_counts_as_primary(
    st: UsbipdState,
    primary: Option<RegistryInfoView>,
    i: RegistryInfoView,
)
    requires
        !installation_known(st),
        !pair_complete(install_pair(primary)),
    ensures
        installation_check_spec(st, primary, Some(Some(i))) == installation_check_spec(
            st,
            Some(i),
            None,
        ),
{
}

/// Where both keys fail to give a complete location and version, usbipd is
/// not found and nothing is recorded.
pub proof fn law_incomplete_registry_not_found(
    st: UsbipdState,
    primary: Option<RegistryInfoView>,
    fallback: Option<Option<RegistryInfoView>>,
)
    requires
        !installation_known(st),
        !pair_complete(install_pair(primary)),
        match fallback {
            Some(Some(i)) => !pair_complete(install_pair(Some(i))),
            _ => true,
        },
    ensures
        installation_check_spec(st, primary, fallback) == (st, Err::<bool, Error>(
            Error::UsbIPDNotFound,
        )),
{
}

/// A complete entry of a supported version is recorded: its location, its
/// version and the script of that version, and the check succeeds.
pub proof fn law_complete_entry_recorded(st: UsbipdState, i: RegistryInfoView)
    requires
        state_wf(st),
        !installation_known(st),
        pair_complete(install_pair(Some(i))),
        select_script_spec(install_pair(Some(i)).1) is Ok,
    ensures
        ({
            let (st2, r) = installation_check_spec(st, Some(i), None);
            &&& r == Ok::<bool, Error>(true)
            &&& st2.installation_path == install_pair(Some(i)).0
            &&& st2.version == install_pair(Some(i)).1
            &&& Ok::<Seq<char>, Error>(st2.devices_script) == select_script_spec(
                install_pair(Some(i)).1,
            )
        }),
{
    let (st2, r) = installation_check_spec(st, Some(i), None);
    lemma_selected_script_non_empty(st.version);
    assert(st.devices_script.len() == 0);
    assert(st.devices_script + select_script_spec(install_pair(Some(i)).1)->Ok_0
        =~= select_script_spec(install_pair(Some(i)).1)->Ok_0);
}

} // verus!
