//! Driving the editor the way the fixtures do, from a command line.
//!
//! Another engine and the differential fuzzer treat this as the oracle: the same
//! `text` and `keys` in, the same snapshot block out. Because the format is the one
//! the fixtures already use, a case that diverges can be pasted straight into them.
//! Reading a whole file matters for fuzzing: thousands of cases cost one process
//! rather than thousands.

use vstd::prelude::*;
use vstd::utf8::encode_utf8;

use crate::buffer;
use crate::fixtures;
use crate::fixtures::{Case, CaseState, run_case};
use crate::split;
use crate::strings;

verus! {

/// The arguments that `args` hold.
pub open spec fn arg_views(args: Seq<String>) -> Seq<Seq<char>> {
    Seq::new(args.len(), |i: int| args[i]@)
}

// ---------------------------------------------------------------------------
// arguments
// ---------------------------------------------------------------------------

/// The value of the flag `name` among the arguments from the `i`th on: the argument
/// after it, or what follows its `=`. The first that names it counts.
pub open spec fn flag_from(args: Seq<Seq<char>>, name: Seq<char>, i: int) -> Option<Seq<char>>
    decreases args.len() - i,
{
    if i >= args.len() {
        None
    } else if args[i] == name {
        if i + 1 < args.len() {
            Some(args[i + 1])
        } else {
            None
        }
    } else {
        match split::after(args[i], name.push('=')) {
            Some(value) => Some(value),
            None => flag_from(args, name, i + 1),
        }
    }
}

/// The value of the flag `name`.
pub fn flag(args: &[String], name: &str) -> (r: Option<String>)
    ensures
        match r {
            Some(value) => flag_from(arg_views(args@), name@, 0) == Some(value@),
            None => flag_from(arg_views(args@), name@, 0) is None,
        },
{
    let ghost all = arg_views(args@);
    let mut prefix: String = name.to_owned();
    prefix.push('=');
    let mut i: usize = 0;
    while i < args.len()
        invariant
            i <= args.len(),
            all == arg_views(args@),
            prefix@ == name@.push('='),
            flag_from(all, name@, i as int) == flag_from(all, name@, 0),
        decreases args.len() - i,
    {
        assert(all[i as int] == args[i as int]@);
        let chars: Vec<char> = strings::chars_of(args[i].as_str());
        if strings::spell(chars.as_slice(), name) {
            return if i + 1 < args.len() {
                assert(all[i + 1] == args[i + 1]@);
                Some(args[i + 1].clone())
            } else {
                None
            };
        }
        if let Some(value) = split::strip(chars.as_slice(), prefix.as_str()) {
            return Some(strings::from_chars(value.as_slice()));
        }
        i += 1;
    }
    None
}

/// The path of a fixture file, either first or behind `--replay`.
pub open spec fn path_of(args: Seq<Seq<char>>) -> Option<Seq<char>> {
    match flag_from(args, "--replay"@, 0) {
        Some(path) => Some(path),
        None => if args.len() > 0 && !split::stands(args[0], "-"@, 0) {
            Some(args[0])
        } else {
            None
        },
    }
}

/// The path of a fixture file, either first or behind `--replay`.
pub fn path_arg(args: &[String]) -> (r: Option<String>)
    ensures
        match r {
            Some(path) => path_of(arg_views(args@)) == Some(path@),
            None => path_of(arg_views(args@)) is None,
        },
{
    if let Some(path) = flag(args, "--replay") {
        return Some(path);
    }
    if args.len() == 0 {
        return None;
    }
    assert(arg_views(args@)[0] == args[0]@);
    let chars: Vec<char> = strings::chars_of(args[0].as_str());
    match split::strip(chars.as_slice(), "-") {
        Some(_) => None,
        None => Some(args[0].clone()),
    }
}

/// Whether an argument asks for help.
pub open spec fn asks_help(args: Seq<Seq<char>>) -> bool {
    exists|i: int| 0 <= i < args.len() && (#[trigger] args[i] == "-h"@ || args[i] == "--help"@)
}

fn wants_help(args: &[String]) -> (r: bool)
    ensures
        r == asks_help(arg_views(args@)),
{
    let ghost all = arg_views(args@);
    let mut i: usize = 0;
    while i < args.len()
        invariant
            i <= args.len(),
            all == arg_views(args@),
            forall|k: int| 0 <= k < i ==> #[trigger] all[k] != "-h"@ && all[k] != "--help"@,
        decreases args.len() - i,
    {
        let chars: Vec<char> = strings::chars_of(args[i].as_str());
        assert(all[i as int] == chars@);
        if strings::spell(chars.as_slice(), "-h") || strings::spell(chars.as_slice(), "--help") {
            return true;
        }
        i += 1;
    }
    false
}

/// Where a buffer comes from.
#[derive(Debug)]
pub enum Source {
    Given(String),
    /// `--text -`
    Stdin,
}

/// What the arguments ask for.
#[derive(Debug)]
pub enum Request {
    Help,
    /// Run the cases of a fixture file.
    Replay(String),
    /// Run one case.
    One { name: String, text: Source, keys: String, settings: Option<String> },
}

/// A flag that one case cannot do without.
#[derive(Debug, Clone, Copy, PartialEq, Eq, Structural)]
pub enum Missing {
    Text,
    Keys,
}

impl Missing {
    /// The error as it is shown to a user.
    pub fn message(&self) -> (r: &'static str)
        ensures
            r@ == match *self {
                Missing::Text => "missing --text"@,
                Missing::Keys => "missing --keys"@,
            },
    {
        match self {
            Missing::Text => "missing --text",
            Missing::Keys => "missing --keys",
        }
    }
}

/// Where a buffer comes from, as a value.
#[verifier::ext_equal]
pub enum SourceState {
    Given(Seq<char>),
    Stdin,
}

/// What the arguments ask for, as a value.
#[verifier::ext_equal]
pub enum RequestState {
    Help,
    Replay(Seq<char>),
    One {
        name: Seq<char>,
        text: SourceState,
        keys: Seq<char>,
        settings: Option<Seq<char>>,
    },
}

impl View for Source {
    type V = SourceState;

    open spec fn view(&self) -> SourceState {
        match self {
            Source::Given(text) => SourceState::Given(text@),
            Source::Stdin => SourceState::Stdin,
        }
    }
}

impl View for Request {
    type V = RequestState;

    open spec fn view(&self) -> RequestState {
        match self {
            Request::Help => RequestState::Help,
            Request::Replay(path) => RequestState::Replay(path@),
            Request::One { name, text, keys, settings } => RequestState::One {
                name: name@,
                text: text@,
                keys: keys@,
                settings: match settings {
                    Some(value) => Some(value@),
                    None => None,
                },
            },
        }
    }
}

/// What the arguments ask for one case.
pub open spec fn one_of(args: Seq<Seq<char>>) -> Result<RequestState, Missing> {
    match (flag_from(args, "--text"@, 0), flag_from(args, "--keys"@, 0)) {
        (None, _) => Err(Missing::Text),
        (Some(_), None) => Err(Missing::Keys),
        (Some(text), Some(keys)) => Ok(
            RequestState::One {
                name: match flag_from(args, "--name"@, 0) {
                    Some(name) => name,
                    None => "case"@,
                },
                text: if text == "-"@ {
                    SourceState::Stdin
                } else {
                    SourceState::Given(text)
                },
                keys,
                settings: flag_from(args, "--with"@, 0),
            },
        ),
    }
}

/// What the arguments ask for.
pub open spec fn request_of(args: Seq<Seq<char>>) -> Result<RequestState, Missing> {
    if asks_help(args) {
        Ok(RequestState::Help)
    } else {
        match path_of(args) {
            Some(path) => Ok(RequestState::Replay(path)),
            None => one_of(args),
        }
    }
}

/// What the arguments ask for one case.
fn one_case(args: &[String]) -> (r: Result<Request, Missing>)
    ensures
        match r {
            Ok(request) => one_of(arg_views(args@)) == Ok::<RequestState, Missing>(request@),
            Err(missing) => one_of(arg_views(args@)) == Err::<RequestState, Missing>(missing),
        },
{
    let name: String = match flag(args, "--name") {
        Some(name) => name,
        None => "case".to_owned(),
    };
    let text: Source = match flag(args, "--text") {
        Some(text) => {
            let chars: Vec<char> = strings::chars_of(text.as_str());
            if strings::spell(chars.as_slice(), "-") {
                Source::Stdin
            } else {
                Source::Given(text)
            }
        },
        None => {
            return Err(Missing::Text);
        },
    };
    let keys: String = match flag(args, "--keys") {
        Some(keys) => keys,
        None => {
            return Err(Missing::Keys);
        },
    };
    let settings: Option<String> = flag(args, "--with");
    Ok(Request::One { name, text, keys, settings })
}

/// What the arguments ask for.
pub fn request(args: &[String]) -> (r: Result<Request, Missing>)
    ensures
        match r {
            Ok(request) => request_of(arg_views(args@)) == Ok::<RequestState, Missing>(request@),
            Err(missing) => request_of(arg_views(args@)) == Err::<RequestState, Missing>(missing),
        },
{
    if wants_help(args) {
        return Ok(Request::Help);
    }
    match path_arg(args) {
        Some(path) => Ok(Request::Replay(path)),
        None => one_case(args),
    }
}

// ---------------------------------------------------------------------------
// answers
// ---------------------------------------------------------------------------

/// What is printed for a case of a file. Keys that cannot be read are heard about in
/// the diff rather than in a failed process.
pub open spec fn entry(case: CaseState) -> Seq<char> {
    match fixtures::outcome(case) {
        Ok(block) => block,
        Err(fault) => "== "@ + case.name + " ==\ninvalid keys: "@ + fault.message() + "\n\n"@,
    }
}

/// What is printed for the first `n` cases of a file.
pub open spec fn entries(cases: Seq<CaseState>, n: int) -> Seq<char>
    decreases n,
{
    if n <= 0 {
        Seq::empty()
    } else {
        entries(cases, n - 1) + entry(cases[n - 1])
    }
}

/// Run the cases of a file, in order, and return their blocks.
pub fn replay(cases: &Vec<Case>) -> (r: String)
    requires
        forall|i: int|
            0 <= i < cases.len() ==> encode_utf8((#[trigger] cases[i]).text@).len()
                <= buffer::MAX_LEN,
    ensures
        r@ == entries(fixtures::views(cases@), cases@.len() as int),
{
    let ghost all = fixtures::views(cases@);
    let mut out = String::new();
    let mut i: usize = 0;
    assert(out@ =~= entries(all, 0));
    while i < cases.len()
        invariant
            i <= cases.len(),
            all == fixtures::views(cases@),
            forall|k: int|
                0 <= k < cases.len() ==> encode_utf8((#[trigger] cases[k]).text@).len()
                    <= buffer::MAX_LEN,
            out@ == entries(all, i as int),
        decreases cases.len() - i,
    {
        let case: &Case = &cases[i];
        assert(all[i as int] == case@);
        match run_case(case) {
            Ok(block) => {
                out.push_str(block.as_str());
            },
            Err(error) => {
                let mut note: String = "== ".to_owned();
                note.push_str(case.name.as_str());
                note.push_str(" ==\ninvalid keys: ");
                note.push_str(error.to_string().as_str());
                note.push_str("\n\n");
                out.push_str(note.as_str());
            },
        }
        i += 1;
    }
    out
}

} // verus!
