//! How usbipd is invoked (directly, or elevated through PowerShell), what the
//! failures of a started program mean, and how its output bytes are read.
use vstd::prelude::*;

use crate::command_error::{CommandError, ErrorCode, USBIPDResult};
use crate::commands::strings_view;
use crate::usbipd::{usbipd_executable, USBIPD};

verus! {

/// The texts of `parts`, with `sep` between each two (`[&str]::join`).
pub open spec fn join_with(parts: Seq<Seq<char>>, sep: Seq<char>) -> Seq<char>
    decreases parts.len(),
{
    if parts.len() == 0 {
        Seq::<char>::empty()
    } else if parts.len() == 1 {
        parts[0]
    } else {
        join_with(parts.drop_last(), sep) + sep + parts.last()
    }
}

/// `s` between double quotes.
pub open spec fn quoted(s: Seq<char>) -> Seq<char> {
    seq!['"'] + s + seq!['"']
}

/// The program and the arguments that run the usbipd command `command`
/// from the executable at `path`: where the command needs administrator
/// rights that this process lacks, PowerShell starts usbipd elevated, in a
/// hidden window, with the command quoted as one argument list.
pub open spec fn invocation_spec(
    path: Seq<char>,
    command: Seq<Seq<char>>,
    admin: bool,
    is_admin: bool,
) -> (Seq<char>, Seq<Seq<char>>) {
    if admin && !is_admin {
        (
            "powershell.exe"@,
            seq![
                "-NoProfile"@,
                "Start-Process"@,
                quoted(path),
                "-ArgumentList"@,
                quoted(join_with(command, " "@)),
                "-WindowStyle"@,
                "Hidden"@,
                "-Verb"@,
                "RunAs"@,
            ],
        )
    } else {
        (path, command)
    }
}

/// Joins the strings of `parts` with `sep` between each two.
pub fn join_strings(parts: &Vec<String>, sep: &str) -> (r: String)
    ensures
        r@ == join_with(strings_view(parts@), sep@),
{
    let ghost all = strings_view(parts@);
    let mut r = String::new();
    let mut i: usize = 0;
    assert(all.take(0) =~= Seq::<Seq<char>>::empty());
    while i < parts.len()
        invariant
            all == strings_view(parts@),
            i <= parts.len(),
            r@ == join_with(all.take(i as int), sep@),
        decreases parts.len() - i,
    {
        assert(all.take(i + 1).drop_last() =~= all.take(i as int));
        assert(all.take(i + 1).last() == parts@[i as int]@);
        if i > 0 {
            r.append(sep);
        } else {
            assert(all.take(1) =~= seq![parts@[0]@]);
            assert(r@ =~= Seq::<char>::empty());
        }
        r.append(parts[i].as_str());
        if i == 0 {
            assert(r@ =~= parts@[0]@);
        }
        i = i + 1;
    }
    assert(all.take(parts.len() as int) =~= all);
    r
}

/// `s` between double quotes.
pub fn quote(s: &str) -> (r: String)
    ensures
        r@ == quoted(s@),
{
    proof {
        reveal_strlit("\"");
    }
    let mut r = String::from_str("\"");
    r.append(s);
    r.append("\"");
    assert(r@ =~= quoted(s@));
    r
}

fn copy_strings(v: &Vec<String>) -> (r: Vec<String>)
    ensures
        strings_view(r@) == strings_view(v@),
{
    let mut r: Vec<String> = Vec::new();
    let mut i: usize = 0;
    while i < v.len()
        invariant
            i <= v.len(),
            r.len() == i,
            forall|j: int| 0 <= j < i ==> #[trigger] r@[j]@ == v@[j]@,
        decreases v.len() - i,
    {
        r.push(v[i].clone());
        i = i + 1;
    }
    assert(strings_view(r@) =~= strings_view(v@));
    r
}

impl USBIPD {
    /// The program and arguments that run the usbipd command `command`
    /// (see `invocation_spec`); `is_admin` tells whether this process runs
    /// elevated. Fails while the installation is unknown.
    pub fn usbipd_invocation(&self, command: &Vec<String>, admin: bool, is_admin: bool) -> (r:
        USBIPDResult<(String, Vec<String>)>)
        ensures
            match r {
                Ok((program, args)) => self@.installation_path.len() > 0 && (program@, strings_view(
                    args@,
                )) == invocation_spec(
                    usbipd_executable(self@.installation_path),
                    strings_view(command@),
                    admin,
                    is_admin,
                ),
                Err(e) => self@.installation_path.len() == 0 && e.code == ErrorCode::UsbIPDNotFound
                    && e.message@ == "usbipd path not found."@,
            },
    {
        let usbipd_path = match self.path() {
            Ok(p) => p,
            Err(_) => {
                return Err(CommandError::new(
                    ErrorCode::UsbIPDNotFound,
                    String::from_str("usbipd path not found."),
                ));
            },
        };
        let usbipd_path = usbipd_path.as_str();
        let cmd_args = quote(join_strings(command, " ").as_str());
        let usbipd_path_quoted = quote(usbipd_path);
        if admin && !is_admin {
            let mut args: Vec<String> = Vec::new();
            args.push(String::from_str("-NoProfile"));
            args.push(String::from_str("Start-Process"));
            args.push(usbipd_path_quoted);
            args.push(String::from_str("-ArgumentList"));
            args.push(cmd_args);
            args.push(String::from_str("-WindowStyle"));
            args.push(String::from_str("Hidden"));
            args.push(String::from_str("-Verb"));
            args.push(String::from_str("RunAs"));
            let r = (String::from_str("powershell.exe"), args);
            assert(strings_view(r.1@) =~= invocation_spec(
                usbipd_executable(self@.installation_path),
                strings_view(command@),
                admin,
                is_admin,
            ).1);
            Ok(r)
        } else {
            Ok((String::from_str(usbipd_path), copy_strings(command)))
        }
    }
}

/// The error of a program that could not be started: `raw_os_error` 2 (the
/// file was not found) means the command does not exist; any other failure is
/// an internal error with its description.
pub fn spawn_failure(raw_os_error: Option<i32>, description: &str) -> (r: CommandError)
    ensures
        raw_os_error == Some(2i32) ==> r.code == ErrorCode::CommandNotFound && r.message@
            == "Command not found"@,
        raw_os_error != Some(2i32) ==> r.code == ErrorCode::InternalError && r.message@
            == description@,
{
    match raw_os_error {
        Some(code) => {
            if code == 2 {
                return CommandError::new(
                    ErrorCode::CommandNotFound,
                    String::from_str("Command not found"),
                );
            }
        },
        None => {},
    }
    CommandError::new(ErrorCode::InternalError, String::from_str(description))
}

/// The error of a program whose end could not be awaited.
pub fn wait_failure(description: &str) -> (r: CommandError)
    ensures
        r.code == ErrorCode::InternalError,
        r.message@ == "Failed to wait for child process: "@ + description@,
{
    let mut m = String::from_str("Failed to wait for child process: ");
    m.append(description);
    CommandError::new(ErrorCode::InternalError, m)
}

/// The error of a program that ended unsuccessfully: its name, its exit
/// status and what it wrote to its error output.
pub fn exit_failure(program: &str, status: &str, stderr: &str) -> (r: CommandError)
    ensures
        r.code == ErrorCode::InternalError,
        r.message@ == program@ + " failed with status "@ + status@ + ": "@ + stderr@,
{
    let mut m = String::from_str(program);
    m.append(" failed with status ");
    m.append(status);
    m.append(": ");
    m.append(stderr);
    CommandError::new(ErrorCode::InternalError, m)
}

/// The text that `String::from_utf8_lossy` reads from `bytes`; it depends on
/// the bytes alone.
pub uninterp spec fn utf8_lossy_text(bytes: Seq<u8>) -> Seq<char>;

/// A first unit of a surrogate pair.
pub open spec fn is_high_surrogate(u: u16) -> bool {
    0xD800 <= u && u <= 0xDBFF
}

/// A second unit of a surrogate pair.
pub open spec fn is_low_surrogate(u: u16) -> bool {
    0xDC00 <= u && u <= 0xDFFF
}

/// UTF-16 read as `String::from_utf16_lossy` reads it: a high surrogate
/// followed by a low one is the character of the pair; any other surrogate
/// is U+FFFD; every other unit is the character of its own code.
pub open spec fn utf16_decode(units: Seq<u16>) -> Seq<char>
    decreases units.len(),
{
    if units.len() == 0 {
        Seq::<char>::empty()
    } else if units.len() >= 2 && is_high_surrogate(units[0]) && is_low_surrogate(units[1]) {
        seq![
            (0x10000 + (units[0] - 0xD800) * 0x400 + (units[1] - 0xDC00)) as char,
        ] + utf16_decode(units.subrange(2, units.len() as int))
    } else if is_high_surrogate(units[0]) || is_low_surrogate(units[0]) {
        seq!['\u{FFFD}'] + utf16_decode(units.subrange(1, units.len() as int))
    } else {
        seq![units[0] as char] + utf16_decode(units.subrange(1, units.len() as int))
    }
}

/// Units none of which is a surrogate are read one character each.
pub proof fn lemma_utf16_decode_without_surrogates(units: Seq<u16>)
    requires
        forall|i: int| 0 <= i < units.len() ==> #[trigger] units[i] < 0xD800 || units[i] > 0xDFFF,
    ensures
        utf16_decode(units) == Seq::new(units.len(), |i: int| units[i] as char),
    decreases units.len(),
{
    if units.len() > 0 {
        let t = units.subrange(1, units.len() as int);
        assert forall|i: int| 0 <= i < t.len() implies #[trigger] t[i] < 0xD800 || t[i] > 0xDFFF by {
            assert(t[i] == units[i + 1]);
        }
        lemma_utf16_decode_without_surrogates(t);
        assert(units[0] < 0xD800 || units[0] > 0xDFFF);
        assert(utf16_decode(units) =~= Seq::new(units.len(), |i: int| units[i] as char));
    }
}

/// Calls `String::from_utf8_lossy`, whose documentation says that it reads
/// UTF-8, putting U+FFFD in place of each invalid sequence. Claimed: the
/// result is `utf8_lossy_text` of the bytes, and valid UTF-8 is read as what
/// it encodes. What an invalid sequence becomes is not stated beyond the name.
#[verifier::external_body]
fn utf8_lossy(bytes: &[u8]) -> (r: String)
    ensures
        r@ == utf8_lossy_text(bytes@),
        vstd::utf8::valid_utf8(bytes@) ==> r@ == vstd::utf8::decode_utf8(bytes@),
{
    String::from_utf8_lossy(bytes).into_owned()
}

/// Calls `String::from_utf16_lossy`, whose documentation says that it reads
/// UTF-16 (as `char::decode_utf16` does), putting U+FFFD in place of each
/// unpaired surrogate. Claimed: the result is `utf16_decode` of the units.
#[verifier::external_body]
fn utf16_lossy(units: &[u16]) -> (r: String)
    ensures
        r@ == utf16_decode(units@),
{
    String::from_utf16_lossy(units)
}

/// The 16-bit units of `bytes` read in little-endian pairs; an odd last byte
/// is dropped (`chunks_exact(2)` with `u16::from_le_bytes`).
pub open spec fn le_units(bytes: Seq<u8>) -> Seq<u16> {
    Seq::new(
        (bytes.len() / 2) as nat,
        |i: int| (bytes[2 * i] as int + 256 * bytes[2 * i + 1] as int) as u16,
    )
}

/// Reads `bytes` as little-endian 16-bit units.
pub fn le_units_of(bytes: &[u8]) -> (r: Vec<u16>)
    ensures
        r@ == le_units(bytes@),
{
    let n = bytes.len() / 2;
    let mut r: Vec<u16> = Vec::new();
    let mut i: usize = 0;
    while i < n
        invariant
            n == bytes@.len() / 2,
            2 * n <= bytes@.len(),
            bytes@.len() <= usize::MAX,
            i <= n,
            r.len() == i,
            forall|j: int| 0 <= j < i ==> #[trigger] r@[j] == (bytes@[2 * j] as int + 256
                * bytes@[2 * j + 1] as int) as u16,
        decreases n - i,
    {
        let lo = bytes[2 * i] as u16;
        let hi = bytes[2 * i + 1] as u16;
        r.push(lo + hi * 256);
        i = i + 1;
    }
    assert(r@ =~= le_units(bytes@));
    r
}

/// The text of a program's output: UTF-16 (little-endian) where `utf16`,
/// else UTF-8; invalid UTF-8 is read as `from_utf8_lossy` reads it.
pub open spec fn output_text(bytes: Seq<u8>, utf16: bool) -> Seq<char> {
    if utf16 {
        utf16_decode(le_units(bytes))
    } else {
        utf8_lossy_text(bytes)
    }
}

/// Reads a program's output (see `output_text`).
pub fn decode_output(bytes: &[u8], utf16: bool) -> (r: String)
    ensures
        r@ == output_text(bytes@, utf16),
        !utf16 && vstd::utf8::valid_utf8(bytes@) ==> r@ == vstd::utf8::decode_utf8(bytes@),
        utf16 && (forall|i: int|
            0 <= i < le_units(bytes@).len() ==> #[trigger] le_units(bytes@)[i] < 0xD800
                || le_units(bytes@)[i] > 0xDFFF) ==> r@ == Seq::new(
            le_units(bytes@).len(),
            |i: int| le_units(bytes@)[i] as char,
        ),
{
    if utf16 {
        let units = le_units_of(bytes);
        proof {
            if forall|i: int|
                0 <= i < le_units(bytes@).len() ==> #[trigger] le_units(bytes@)[i] < 0xD800
                    || le_units(bytes@)[i] > 0xDFFF {
                lemma_utf16_decode_without_surrogates(le_units(bytes@));
            }
        }
        utf16_lossy(units.as_slice())
    } else {
        utf8_lossy(bytes)
    }
}

/// PowerShell elevates usbipd exactly when the command needs administrator
/// rights that this process lacks; otherwise usbipd runs directly with the
/// command as it is.
pub proof fn law_elevation_only_when_needed(
    path: Seq<char>,
    command: Seq<Seq<char>>,
    admin: bool,
    is_admin: bool,
)
    ensures
        !(admin && !is_admin) ==> invocation_spec(path, command, admin, is_admin) == (
            path,
            command,
        ),
        admin && !is_admin ==> {
            let (program, args) = invocation_spec(path, command, admin, is_admin);
            &&& program == "powershell.exe"@
            &&& args.len() == 9
            &&& args[2] == quoted(path)
            &&& args[4] == quoted(join_with(command, " "@))
            &&& args[7] == "-Verb"@
            &&& args[8] == "RunAs"@
        },
{
}

} // verus!
