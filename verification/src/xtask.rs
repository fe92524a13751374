use vstd::prelude::*;

verus! {

/// Why the arguments of the AUv2 bundling command were refused.
#[derive(Clone, Debug)]
pub enum ProfileError {
    /// Help was asked for; the usage text is the answer.
    Usage,
    /// An argument that the command does not know.
    UnknownArgument(String),
    /// Both `--release` and `--debug` were given.
    ConflictingProfiles,
}

/// Usage text of the AUv2 bundling command.
pub const USAGE_TEXT: &'static str = "Usage: cargo auv2 [--release|--debug]\n\n`cargo auv2` builds release AUv2 bundles by default so Logic Pro sees the same optimized arm64 slice that is merged with the x86_64 release slice.";

/// Start of the message for an unknown argument; the argument follows.
pub const UNKNOWN_ARGUMENT_TEXT: &'static str = "Unknown argument for `cargo auv2`: ";

/// Message for conflicting profiles.
pub const CONFLICTING_PROFILES_TEXT: &'static str = "`cargo auv2` cannot use both --release and --debug";

impl ProfileError {
    /// The message shown to the user.
    pub fn message(&self) -> (text: String)
        ensures
            text@ == match self {
                ProfileError::Usage => USAGE_TEXT@,
                ProfileError::UnknownArgument(arg) => UNKNOWN_ARGUMENT_TEXT@ + arg@,
                ProfileError::ConflictingProfiles => CONFLICTING_PROFILES_TEXT@,
            },
    {
        match self {
            ProfileError::Usage => String::from_str(USAGE_TEXT),
            ProfileError::UnknownArgument(arg) => {
                let mut text = String::from_str(UNKNOWN_ARGUMENT_TEXT);
                text.append(arg.as_str());
                text
            },
            ProfileError::ConflictingProfiles => String::from_str(CONFLICTING_PROFILES_TEXT),
        }
    }
}

/// The build profile that argument `arg` selects: `Some(true)` for
/// `--release`, `Some(false)` for `--debug`, `None` for anything else.
pub open spec fn profile_of(arg: Seq<char>) -> Option<bool> {
    if arg == "--release"@ {
        Some(true)
    } else if arg == "--debug"@ {
        Some(false)
    } else {
        None
    }
}

/// Whether `arg` asks for help.
pub open spec fn asks_help(arg: Seq<char>) -> bool {
    arg == "--help"@ || arg == "-h"@
}

/// Index of the first argument that selects no profile, if any.
pub open spec fn first_other(args: Seq<String>) -> Option<int>
    decreases args.len(),
{
    if args.len() == 0 {
        None
    } else {
        match first_other(args.drop_last()) {
            Some(i) => Some(i),
            None => if profile_of(args.last()@) is None {
                Some(args.len() - 1)
            } else {
                None
            },
        }
    }
}

/// Whether some argument selects the profile `release`.
pub open spec fn names_profile(args: Seq<String>, release: bool) -> bool {
    exists|i: int| 0 <= i < args.len() && profile_of(#[trigger] args[i]@) == Some(release)
}

/// What the bundling command makes of its arguments: the first argument that
/// selects no profile refuses them (help gives the usage); otherwise giving
/// both profiles is refused, and the profile is release unless `--debug` is
/// given.
pub open spec fn profile_choice(args: Seq<String>) -> Result<bool, ProfileError> {
    match first_other(args) {
        Some(i) => if asks_help(args[i]@) {
            Err(ProfileError::Usage)
        } else {
            Err(ProfileError::UnknownArgument(args[i]))
        },
        None => if names_profile(args, true) && names_profile(args, false) {
            Err(ProfileError::ConflictingProfiles)
        } else {
            Ok(!names_profile(args, false))
        },
    }
}

proof fn lemma_first_other(args: Seq<String>)
    ensures
        match first_other(args) {
            Some(i) => 0 <= i < args.len() && profile_of(args[i]@) is None && forall|j: int|
                0 <= j < i ==> profile_of(#[trigger] args[j]@) is Some,
            None => forall|j: int| 0 <= j < args.len() ==> profile_of(#[trigger] args[j]@) is Some,
        },
    decreases args.len(),
{
    if args.len() > 0 {
        let prefix = args.drop_last();
        lemma_first_other(prefix);
        assert(forall|j: int| 0 <= j < prefix.len() ==> prefix[j] == args[j]);
    }
}

proof fn lemma_first_other_is(args: Seq<String>, i: int)
    requires
        0 <= i <= args.len(),
        forall|j: int| 0 <= j < i ==> profile_of(#[trigger] args[j]@) is Some,
        i < args.len() ==> profile_of(args[i]@) is None,
    ensures
        first_other(args) == if i < args.len() {
            Some(i)
        } else {
            None::<int>
        },
{
    lemma_first_other(args);
}

/// Whether `a` and `b` hold the same text.
fn same_text(a: &String, b: &str) -> (r: bool)
    ensures
        r == (a@ == b@),
{
    let b = String::from_str(b);
    a.eq(&b)
}

/// Reads the arguments of the AUv2 bundling command: `--release` or `--debug`
/// select the build profile (release when none is given); help, an unknown
/// argument, or both profiles at once are refused.
pub fn parse_release_profile(extra_args: &[String]) -> (r: Result<bool, ProfileError>)
    ensures
        r == profile_choice(extra_args@),
{
    let mut release = true;
    let mut saw_release = false;
    let mut saw_debug = false;
    let mut i: usize = 0;
    while i < extra_args.len()
        invariant
            i <= extra_args.len(),
            forall|j: int| 0 <= j < i ==> profile_of(#[trigger] extra_args@[j]@) is Some,
            saw_release == exists|j: int|
                0 <= j < i && profile_of(#[trigger] extra_args@[j]@) == Some(true),
            saw_debug == exists|j: int|
                0 <= j < i && profile_of(#[trigger] extra_args@[j]@) == Some(false),
            !saw_debug ==> release,
            saw_debug && !saw_release ==> !release,
        decreases extra_args.len() - i,
    {
        let arg = &extra_args[i];
        proof {
            reveal_strlit("--release");
            reveal_strlit("--debug");
            reveal_strlit("--help");
            reveal_strlit("-h");
        }
        if same_text(arg, "--release") {
            release = true;
            saw_release = true;
        } else if same_text(arg, "--debug") {
            release = false;
            saw_debug = true;
        } else {
            proof {
                lemma_first_other_is(extra_args@, i as int);
            }
            if same_text(arg, "--help") || same_text(arg, "-h") {
                return Err(ProfileError::Usage);
            }
            return Err(ProfileError::UnknownArgument(arg.clone()));
        }
        i += 1;
    }
    proof {
        lemma_first_other_is(extra_args@, extra_args.len() as int);
    }
    if saw_release && saw_debug {
        return Err(ProfileError::ConflictingProfiles);
    }
    Ok(release)
}

/// The cargo flag that selects the build profile: `--release`, or nothing
/// for a debug build.
pub fn profile_flag(release: bool) -> (flag: &'static str)
    ensures
        flag@ == if release {
            "--release"@
        } else {
            ""@
        },
{
    if release {
        "--release"
    } else {
        ""
    }
}

/// The arguments of a command without the empty ones, in order.
pub open spec fn non_empty(args: Seq<&str>) -> Seq<&str> {
    args.filter(|arg: &str| arg@.len() > 0)
}

/// The arguments handed to a child command: the given ones without the empty
/// strings (an empty profile flag stands for a debug build).
pub fn command_args<'a>(args: &[&'a str]) -> (out: Vec<&'a str>)
    ensures
        out@ == non_empty(args@),
{
    let mut out: Vec<&'a str> = Vec::new();
    let mut i: usize = 0;
    while i < args.len()
        invariant
            i <= args.len(),
            out@ == non_empty(args@.take(i as int)),
        decreases args.len() - i,
    {
        let arg = args[i];
        proof {
            reveal_with_fuel(Seq::<_>::filter, 1);
            assert(args@.take(i as int + 1).drop_last() == args@.take(i as int));
        }
        if !arg.is_empty() {
            out.push(arg);
        }
        i += 1;
    }
    proof {
        assert(args@.take(args.len() as int) == args@);
    }
    out
}

} // verus!
