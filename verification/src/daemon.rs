//! Decisions of the daemon: the alias a device is shown under, and the
//! schedule of the demo data generator.

use vstd::prelude::*;

verus! {

/// The alias used when neither an alias nor a device file name is at hand.
pub open spec fn fallback_alias() -> Seq<char> {
    "serial"@
}

/// The alias to show: the one given, else the device's file name, else
/// `serial` (also when the device path has no file name).
pub open spec fn chosen_alias(alias: Option<Seq<char>>, device_file_name: Option<Option<Seq<char>>>) -> Seq<char> {
    match alias {
        Some(a) => a,
        None => match device_file_name {
            Some(Some(f)) => f,
            _ => fallback_alias(),
        },
    }
}

/// Picks the alias from the one given and, when a device path was given,
/// the outcome of asking for its file name.
pub fn choose_alias(alias: Option<String>, device_file_name: Option<Option<String>>) -> (r: String)
    ensures
        r@ == chosen_alias(
            match alias {
                Some(a) => Some(a@),
                None => None,
            },
            match device_file_name {
                Some(Some(f)) => Some(Some(f@)),
                Some(None) => Some(None),
                None => None,
            },
        ),
{
    match alias {
        Some(a) => a,
        None => match device_file_name {
            Some(Some(f)) => f,
            _ => String::from_str("serial"),
        },
    }
}

/// The characters after the last `/` of a path (the whole path when it has none).
pub open spec fn after_last_slash(p: Seq<char>) -> Seq<char>
    decreases p.len(),
{
    if p.len() == 0 {
        p
    } else if p.last() == '/' {
        seq![]
    } else {
        after_last_slash(p.drop_last()).push(p.last())
    }
}

/// A path whose file name is the same on every platform: no `\` and no `:`
/// (so no Windows prefix or separator), not starting with `//`, not ending
/// with `/`, and with a last segment that is neither `.` nor `..`.
pub open spec fn plain_path(p: Seq<char>) -> bool {
    &&& p.len() > 0
    &&& !p.contains('\\')
    &&& !p.contains(':')
    &&& !(p.len() >= 2 && p[0] == '/' && p[1] == '/')
    &&& p.last() != '/'
    &&& after_last_slash(p) != seq!['.']
    &&& after_last_slash(p) != seq!['.', '.']
}

/// A file name of a path without `\`: a non-empty component without `/`
/// (outside a Windows verbatim prefix, which needs `\`, `/` separates
/// components on every platform).
pub open spec fn is_file_name(f: Seq<char>) -> bool {
    f.len() > 0 && !f.contains('/')
}

/// `std::path::Path::file_name`, its result converted to a `String` (lossless,
/// as the path is UTF-8): the last component of the path, if there is one.
/// For a plain path (`plain_path`) that is the text after the last `/` on
/// every platform. On other paths the components, and so the result, depend
/// on the platform's separators and prefixes: a file name is then stated to
/// be non-empty, and to hold no `/` when the path holds no `\` (under a
/// Windows verbatim prefix `\\?\` a `/` is no separator).
#[verifier::external_body]
fn path_file_name(path: &str) -> (r: Option<String>)
    ensures
        plain_path(path@) ==> r is Some && r.unwrap()@ == after_last_slash(path@),
        r is Some ==> r.unwrap()@.len() > 0,
        r is Some && !path@.contains('\\') ==> is_file_name(r.unwrap()@),
{
    std::path::Path::new(path).file_name().map(|f| f.to_string_lossy().to_string())
}

/// The alias a daemon runs under: the one given, else the file name of the
/// device path, else `serial`.
pub fn default_alias(alias: Option<String>, device: Option<String>) -> (r: String)
    ensures
        alias matches Some(a) ==> r@ == a@,
        alias is None && device is None ==> r@ == fallback_alias(),
        alias is None && device is Some && plain_path(device.unwrap()@) ==> r@ == after_last_slash(
            device.unwrap()@,
        ),
        alias is None && device is Some ==> r@ == fallback_alias() || r@.len() > 0,
        alias is None && device is Some && !device.unwrap()@.contains('\\') ==> r@ == fallback_alias()
            || is_file_name(r@),
{
    match alias {
        Some(a) => a,
        None => {
            let name = match device {
                Some(d) => Some(path_file_name(d.as_str())),
                None => None,
            };
            choose_alias(None, name)
        },
    }
}

/// Number of notes the demo generator cycles through.
pub const DEMO_NOTE_COUNT: u64 = 8;

/// What the demo generator does at one step.
#[derive(Debug, Clone, Copy, PartialEq, Eq, Structural)]
pub struct DemoStep {
    /// Index of the note played, into the demo scale.
    pub note: usize,
    /// Whether a fifth above the note is played after it.
    pub chord: bool,
    /// The step counter afterwards.
    pub next: u64,
}

/// The demo generator's step `step`: it plays the scale in a cycle, and
/// after every seventh note it adds a chord tone.
pub fn demo_step(step: u64) -> (r: DemoStep)
    requires
        step < u64::MAX,
    ensures
        r.note == step % DEMO_NOTE_COUNT,
        r.next == step + 1,
        r.chord == ((step + 1) % 7 == 0),
{
    let note = (step % DEMO_NOTE_COUNT) as usize;
    let next = step + 1;
    DemoStep { note, chord: next % 7 == 0, next }
}

} // verus!
