//! The interception session: from the running binary to a prepared
//! invocation of the next binary.
use crate::command::{env_pairs_view, CommandBuildContext};
use crate::resolve::{
    find_next_bin, next_bin_spec, paths_view, FindNextBinError,
    Resolution,
};
use vstd::prelude::*;
use vstd::utf8::encode_utf8;

verus! {

#[verifier::external_type_specification]
#[verifier::external_body]
pub struct ExWhichError(which::Error);

#[verifier::external_type_specification]
#[verifier::external_body]
pub struct ExIoError(std::io::Error);

/// The final component of a path, as `std::path::Path::file_name` gives it.
pub uninterp spec fn file_name_of(path: Seq<char>) -> Option<Seq<char>>;

/// Relies on `std::path::Path::file_name`: the final component of the path,
/// or nothing where the path is empty, a root, or ends in `..`.
#[verifier::external_body]
fn path_file_name(path: &String) -> (r: Option<String>)
    ensures
        match r {
            Some(n) => file_name_of(path@) == Some(n@),
            None => file_name_of(path@) is None,
        },
{
    match std::path::Path::new(path.as_str()).file_name() {
        Some(n) => Some(n.to_string_lossy().into_owned()),
        None => None,
    }
}

/// Relies on `which::which_all`: every executable named `name` in the
/// directories of the search path, in search-path order. What it finds
/// depends on the environment and the disk, so nothing is promised of it.
#[verifier::external_body]
fn which_all_paths(name: &String) -> (r: Result<Vec<Vec<u8>>, which::Error>) {
    which::which_all(name.as_str()).map(
        |found| found.map(|p| p.into_os_string().into_encoded_bytes()).collect(),
    )
}

/// Why an interception session could not be set up.
#[derive(Debug)]
pub enum InterceptError {
    /// The running binary's path has no final component.
    MissingBaseName,
    /// The search path holds no binary to hand the invocation to.
    FindNextBin(FindNextBinError),
    /// The search of the search path failed.
    Which(which::Error),
    /// The running binary's path could not be read.
    IO(std::io::Error),
}

/// An interception session: the binary that the rewritten invocation goes to.
#[derive(Debug)]
pub struct Intercept {
    next_bin: Vec<u8>,
}

impl View for Intercept {
    type V = Seq<u8>;

    closed spec fn view(&self) -> Seq<u8> {
        self.next_bin@
    }
}

/// The invocation that a session prepared: the target program, the argument
/// tokens after the program name, and the environment overrides.
#[derive(Debug)]
pub struct PreparedCommand {
    program: Vec<u8>,
    args: Vec<Vec<u8>>,
    envs: Vec<(Vec<u8>, Vec<u8>)>,
}

impl PreparedCommand {
    pub closed spec fn program_view(&self) -> Seq<u8> {
        self.program@
    }

    pub closed spec fn arg_list(&self) -> Seq<Seq<u8>> {
        self.args@.map_values(|a: Vec<u8>| a@)
    }

    pub closed spec fn env_list(&self) -> Seq<(Seq<u8>, Seq<u8>)> {
        env_pairs_view(self.envs@)
    }

    /// The path of the program to run.
    pub fn program(&self) -> (r: &Vec<u8>)
        ensures
            r@ == self.program_view(),
    {
        &self.program
    }

    /// The argument tokens, in order.
    pub fn args(&self) -> (r: &Vec<Vec<u8>>)
        ensures
            r@.map_values(|a: Vec<u8>| a@) == self.arg_list(),
    {
        &self.args
    }

    /// The environment overrides, one per variable name.
    pub fn envs(&self) -> (r: &Vec<(Vec<u8>, Vec<u8>)>)
        ensures
            env_pairs_view(r@) == self.env_list(),
    {
        &self.envs
    }
}

impl Intercept {
    /// A session for the running binary at `current_exe`, given the listing
    /// of every binary of its name on the search path.
    pub fn from_listing(current_exe: &Vec<u8>, all_bins: Vec<Vec<u8>>) -> (r: Result<
        Intercept,
        InterceptError,
    >)
        ensures
            match next_bin_spec(paths_view(all_bins@), current_exe@) {
                Resolution::Found(p) => r is Ok && r->Ok_0@ == p,
                Resolution::NoMatch => r matches Err(
                    InterceptError::FindNextBin(FindNextBinError::NoMatch { current_exe: e }),
                ) && e@ == current_exe@,
                Resolution::NextBinMissing => r matches Err(
                    InterceptError::FindNextBin(FindNextBinError::NextBinMissing { current_exe: e }),
                ) && e@ == current_exe@,
            },
            r is Ok ==> r->Ok_0@ != current_exe@,
    {
        match find_next_bin(current_exe, all_bins) {
            Ok(next_bin) => Ok(Intercept { next_bin }),
            Err(e) => Err(InterceptError::FindNextBin(e)),
        }
    }

    /// A session for the running binary at `current_exe`: its base name is
    /// looked up on the search path, and the session goes to the entry that
    /// follows `current_exe` there.
    pub fn new(current_exe: String) -> (r: Result<Intercept, InterceptError>)
        ensures
            (file_name_of(current_exe@) is None) <==> r matches Err(
                InterceptError::MissingBaseName,
            ),
            r is Ok ==> exists|listing: Seq<Seq<u8>>|
                next_bin_spec(listing, encode_utf8(current_exe@)) == Resolution::Found(r->Ok_0@),
            r is Ok ==> r->Ok_0@ != encode_utf8(current_exe@),
            r matches Err(InterceptError::FindNextBin(FindNextBinError::NoMatch { current_exe: e }))
                ==> e@ == encode_utf8(current_exe@),
            r matches Err(
                InterceptError::FindNextBin(FindNextBinError::NextBinMissing { current_exe: e }),
            ) ==> e@ == encode_utf8(current_exe@),
            !(r is Err && r->Err_0 is IO),
    {
        let name = match path_file_name(&current_exe) {
            Some(n) => n,
            None => {
                return Err(InterceptError::MissingBaseName);
            },
        };
        let all_bins = match which_all_paths(&name) {
            Ok(v) => v,
            Err(e) => {
                return Err(InterceptError::Which(e));
            },
        };
        let ghost listing = paths_view(all_bins@);
        let me = current_exe.as_str().as_bytes_vec();
        let r = Intercept::from_listing(&me, all_bins);
        assert(r is Ok ==> next_bin_spec(listing, me@) == Resolution::Found(r->Ok_0@));
        r
    }

    /// The path of the binary that the session hands the invocation to.
    pub fn next_bin(&self) -> (r: &Vec<u8>)
        ensures
            r@ == self@,
    {
        &self.next_bin
    }

    /// Runs `f` on an empty build context and, where it succeeds, prepares
    /// the invocation of the next binary with what `f` built. An error of `f`
    /// is returned as it is, and then nothing is prepared.
    pub fn intercept<F, FE>(self, f: F) -> (r: Result<PreparedCommand, FE>)
        where
            F: FnOnce(CommandBuildContext) -> Result<CommandBuildContext, FE>,
        requires
            forall|c: CommandBuildContext| f.requires((c,)),
        ensures
            intercept_outcome(self@, f, r),
    {
        let ctx = CommandBuildContext::new();
        let ghost start = ctx;
        match f(ctx) {
            Ok(built) => {
                let ghost b = built;
                let (args, envs) = built.into_parts();
                let prepared = PreparedCommand { program: self.next_bin, args, envs };
                assert(is_empty_context(start) && f.ensures((start,), Ok(b)) && prepared_from(
                    prepared,
                    self@,
                    b,
                ));
                let r: Result<PreparedCommand, FE> = Ok(prepared);
                assert(intercept_outcome(self@, f, r));
                r
            },
            Err(e) => {
                assert(is_empty_context(start) && f.ensures((start,), Err(e)));
                assert(exists|s: CommandBuildContext|
                    is_empty_context(s) && #[trigger] f.ensures((s,), Err(e)));
                let r: Result<PreparedCommand, FE> = Err(e);
                assert(r->Err_0 == e);
                assert(intercept_outcome(self@, f, r));
                r
            },
        }
    }
}

/// A context with no arguments and no overrides.
pub open spec fn is_empty_context(c: CommandBuildContext) -> bool {
    &&& c.arg_list() == Seq::<Seq<u8>>::empty()
    &&& c.env_list() == Seq::<(Seq<u8>, Seq<u8>)>::empty()
}

/// `p` runs `program` with what the context `built` holds.
pub open spec fn prepared_from(p: PreparedCommand, program: Seq<u8>, built: CommandBuildContext) -> bool {
    &&& p.program_view() == program
    &&& p.arg_list() == built.arg_list()
    &&& p.env_list() == built.env_list()
}

/// What `intercept` on a session for `program` with callback `f` may give:
/// the callback ran on an empty context, and either its error came back
/// untouched, or the prepared invocation runs `program` with what it built.
pub open spec fn intercept_outcome<F, FE>(program: Seq<u8>, f: F, r: Result<PreparedCommand, FE>) -> bool
    where
        F: FnOnce(CommandBuildContext) -> Result<CommandBuildContext, FE>,
{
    match r {
        Ok(p) => exists|start: CommandBuildContext, built: CommandBuildContext|
            is_empty_context(start) && #[trigger] f.ensures((start,), Ok(built)) && prepared_from(
                p,
                program,
                built,
            ),
        Err(e) => exists|start: CommandBuildContext|
            is_empty_context(start) && #[trigger] f.ensures((start,), Err(e)),
    }
}

/// The callback gives one outcome for every empty context it may be handed.
pub open spec fn callback_is_pure<F, FE>(f: F) -> bool
    where
        F: FnOnce(CommandBuildContext) -> Result<CommandBuildContext, FE>,
{
    forall|c1: CommandBuildContext, c2: CommandBuildContext, o1: Result<CommandBuildContext, FE>, o2: Result<CommandBuildContext, FE>|
        is_empty_context(c1) && is_empty_context(c2) && #[trigger] f.ensures((c1,), o1)
            && #[trigger] f.ensures((c2,), o2) ==> same_outcome(o1, o2)
}

/// Two outcomes of a callback: the same error, or contexts with the same
/// arguments and overrides.
pub open spec fn same_outcome<FE>(o1: Result<CommandBuildContext, FE>, o2: Result<CommandBuildContext, FE>) -> bool {
    match (o1, o2) {
        (Ok(a), Ok(b)) => a.arg_list() == b.arg_list() && a.env_list() == b.env_list(),
        (Err(a), Err(b)) => a == b,
        _ => false,
    }
}

/// Building the invocation twice with a callback that is a function of its
/// inputs gives the same result both times: the same error, or the same
/// program, argument tokens and environment overrides.
pub proof fn lemma_intercept_repeatable<F, FE>(
    program: Seq<u8>,
    f: F,
    r1: Result<PreparedCommand, FE>,
    r2: Result<PreparedCommand, FE>,
)
    where
        F: FnOnce(CommandBuildContext) -> Result<CommandBuildContext, FE>,
    requires
        callback_is_pure(f),
        intercept_outcome(program, f, r1),
        intercept_outcome(program, f, r2),
    ensures
        r1 is Ok <==> r2 is Ok,
        r1 is Ok ==> r1->Ok_0.program_view() == r2->Ok_0.program_view()
            && r1->Ok_0.arg_list() == r2->Ok_0.arg_list() && r1->Ok_0.env_list()
            == r2->Ok_0.env_list(),
        r1 is Err ==> r1->Err_0 == r2->Err_0,
{
    match (r1, r2) {
        (Ok(p1), Ok(p2)) => {
            let (s1, b1) = choose|s: CommandBuildContext, b: CommandBuildContext|
                is_empty_context(s) && #[trigger] f.ensures((s,), Ok(b)) && prepared_from(p1, program, b);
            let (s2, b2) = choose|s: CommandBuildContext, b: CommandBuildContext|
                is_empty_context(s) && #[trigger] f.ensures((s,), Ok(b)) && prepared_from(p2, program, b);
            assert(same_outcome::<FE>(Ok(b1), Ok(b2)));
        },
        (Ok(p1), Err(e2)) => {
            let (s1, b1) = choose|s: CommandBuildContext, b: CommandBuildContext|
                is_empty_context(s) && #[trigger] f.ensures((s,), Ok(b)) && prepared_from(p1, program, b);
            let s2 = choose|s: CommandBuildContext| is_empty_context(s) && #[trigger] f.ensures((s,), Err(e2));
            assert(same_outcome::<FE>(Ok(b1), Err(e2)));
        },
        (Err(e1), Ok(p2)) => {
            let s1 = choose|s: CommandBuildContext| is_empty_context(s) && #[trigger] f.ensures((s,), Err(e1));
            let (s2, b2) = choose|s: CommandBuildContext, b: CommandBuildContext|
                is_empty_context(s) && #[trigger] f.ensures((s,), Ok(b)) && prepared_from(p2, program, b);
            assert(same_outcome::<FE>(Err(e1), Ok(b2)));
        },
        (Err(e1), Err(e2)) => {
            let s1 = choose|s: CommandBuildContext| is_empty_context(s) && #[trigger] f.ensures((s,), Err(e1));
            let s2 = choose|s: CommandBuildContext| is_empty_context(s) && #[trigger] f.ensures((s,), Err(e2));
            assert(same_outcome::<FE>(Err(e1), Err(e2)));
        },
    }
}

/// Where the callback can only fail, building the invocation fails with the
/// callback's error, and no invocation is prepared.
pub proof fn lemma_callback_error_short_circuits<F, FE>(
    program: Seq<u8>,
    f: F,
    r: Result<PreparedCommand, FE>,
)
    where
        F: FnOnce(CommandBuildContext) -> Result<CommandBuildContext, FE>,
    requires
        forall|c: CommandBuildContext, o: Result<CommandBuildContext, FE>|
            is_empty_context(c) && #[trigger] f.ensures((c,), o) ==> o is Err,
        intercept_outcome(program, f, r),
    ensures
        r is Err,
        exists|c: CommandBuildContext| is_empty_context(c) && #[trigger] f.ensures((c,), Err(r->Err_0)),
{
    if r is Ok {
        let p = r->Ok_0;
        let (s, b) = choose|s: CommandBuildContext, b: CommandBuildContext|
            is_empty_context(s) && #[trigger] f.ensures((s,), Ok(b)) && prepared_from(p, program, b);
        assert(f.ensures((s,), Ok::<CommandBuildContext, FE>(b)));
    }
}

} // verus!
