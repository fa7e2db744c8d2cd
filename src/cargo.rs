//! The build coordinator's rewriting: per-package output directories and
//! target-specific environment variables.
use crate::command::{bytes_eq, env_pairs_view, env_set, CommandBuildContext};
use vstd::prelude::*;

verus! {

/// The option words that the build coordinator's rewriting knows, by number:
/// `-p`, `--package`, `--target-dir`, `--target`, `-b`, `--bin`, then the
/// options known to take no value (`--release` to `--all-targets`).
pub open spec fn option_word(k: u8) -> Seq<u8> {
    match k {
        0 => seq![45u8, 112u8],
        1 => seq![45u8, 45u8, 112u8, 97u8, 99u8, 107u8, 97u8, 103u8, 101u8],
        2 => seq![45u8, 45u8, 116u8, 97u8, 114u8, 103u8, 101u8, 116u8, 45u8, 100u8, 105u8, 114u8],
        3 => seq![45u8, 45u8, 116u8, 97u8, 114u8, 103u8, 101u8, 116u8],
        4 => seq![45u8, 98u8],
        5 => seq![45u8, 45u8, 98u8, 105u8, 110u8],
        6 => seq![45u8, 45u8, 114u8, 101u8, 108u8, 101u8, 97u8, 115u8, 101u8],
        7 => seq![45u8, 113u8],
        8 => seq![45u8, 45u8, 113u8, 117u8, 105u8, 101u8, 116u8],
        9 => seq![45u8, 45u8, 102u8, 114u8, 111u8, 122u8, 101u8, 110u8],
        10 => seq![45u8, 45u8, 108u8, 111u8, 99u8, 107u8, 101u8, 100u8],
        11 => seq![45u8, 45u8, 111u8, 102u8, 102u8, 108u8, 105u8, 110u8, 101u8],
        12 => seq![45u8, 45u8, 108u8, 105u8, 115u8, 116u8],
        13 => seq![45u8, 45u8, 118u8, 101u8, 114u8, 115u8, 105u8, 111u8, 110u8],
        14 => seq![45u8, 86u8],
        15 => seq![45u8, 45u8, 102u8, 105u8, 120u8],
        _ => seq![45u8, 45u8, 97u8, 108u8, 108u8, 45u8, 116u8, 97u8, 114u8, 103u8, 101u8, 116u8, 115u8],
    }
}

/// The number of option words.
pub const OPTION_WORDS: u8 = 17;

fn option_word_bytes(k: u8) -> (r: Vec<u8>)
    ensures
        r@ == option_word(k),
{
    let r: Vec<u8> = match k {
        0 => vec![45u8, 112u8],
        1 => vec![45u8, 45u8, 112u8, 97u8, 99u8, 107u8, 97u8, 103u8, 101u8],
        2 => vec![45u8, 45u8, 116u8, 97u8, 114u8, 103u8, 101u8, 116u8, 45u8, 100u8, 105u8, 114u8],
        3 => vec![45u8, 45u8, 116u8, 97u8, 114u8, 103u8, 101u8, 116u8],
        4 => vec![45u8, 98u8],
        5 => vec![45u8, 45u8, 98u8, 105u8, 110u8],
        6 => vec![45u8, 45u8, 114u8, 101u8, 108u8, 101u8, 97u8, 115u8, 101u8],
        7 => vec![45u8, 113u8],
        8 => vec![45u8, 45u8, 113u8, 117u8, 105u8, 101u8, 116u8],
        9 => vec![45u8, 45u8, 102u8, 114u8, 111u8, 122u8, 101u8, 110u8],
        10 => vec![45u8, 45u8, 108u8, 111u8, 99u8, 107u8, 101u8, 100u8],
        11 => vec![45u8, 45u8, 111u8, 102u8, 102u8, 108u8, 105u8, 110u8, 101u8],
        12 => vec![45u8, 45u8, 108u8, 105u8, 115u8, 116u8],
        13 => vec![45u8, 45u8, 118u8, 101u8, 114u8, 115u8, 105u8, 111u8, 110u8],
        14 => vec![45u8, 86u8],
        15 => vec![45u8, 45u8, 102u8, 105u8, 120u8],
        _ => vec![45u8, 45u8, 97u8, 108u8, 108u8, 45u8, 116u8, 97u8, 114u8, 103u8, 101u8, 116u8, 115u8],
    };
    assert(r@ =~= option_word(k));
    r
}

/// How the rewriting treats one argument token.
#[derive(Debug, PartialEq, Eq, Structural)]
pub enum ArgKind {
    /// `-p` or `--package`: names a package, takes a value.
    Package,
    /// `--target-dir`: sets the output directory, takes a value.
    TargetDir,
    /// `--target`: sets the target triple, takes a value.
    Target,
    /// `-b` or `--bin`: names a binary, takes a value.
    Bin,
    /// An option known to take no value.
    Switch,
    /// Anything else.
    Other,
}

/// `a` is the option word numbered `k`, for some `k` in `lo..hi`.
pub open spec fn is_word_in(a: Seq<u8>, lo: u8, hi: u8) -> bool {
    exists|k: u8| lo <= k < hi && a == #[trigger] option_word(k)
}

pub open spec fn arg_kind(a: Seq<u8>) -> ArgKind {
    if is_word_in(a, 0, 2) {
        ArgKind::Package
    } else if a == option_word(2) {
        ArgKind::TargetDir
    } else if a == option_word(3) {
        ArgKind::Target
    } else if is_word_in(a, 4, 6) {
        ArgKind::Bin
    } else if is_word_in(a, 6, OPTION_WORDS) {
        ArgKind::Switch
    } else {
        ArgKind::Other
    }
}

/// The kind of the argument token `a`.
pub fn classify(a: &Vec<u8>) -> (r: ArgKind)
    ensures
        r == arg_kind(a@),
{
    let mut k: u8 = 0;
    while k < OPTION_WORDS
        invariant
            0 <= k <= OPTION_WORDS,
            forall|j: u8| 0 <= j < k ==> a@ != #[trigger] option_word(j),
        decreases OPTION_WORDS - k,
    {
        let w = option_word_bytes(k);
        if bytes_eq(a, &w) {
            assert(a@ == option_word(k));
            if k < 2 {
                assert(is_word_in(a@, 0, 2));
                return ArgKind::Package;
            } else if k == 2 {
                assert(!is_word_in(a@, 0, 2));
                return ArgKind::TargetDir;
            } else if k == 3 {
                assert(!is_word_in(a@, 0, 2));
                return ArgKind::Target;
            } else if k < 6 {
                assert(!is_word_in(a@, 0, 2));
                assert(is_word_in(a@, 4, 6));
                return ArgKind::Bin;
            } else {
                assert(!is_word_in(a@, 0, 2));
                assert(!is_word_in(a@, 4, 6));
                assert(is_word_in(a@, 6, OPTION_WORDS));
                return ArgKind::Switch;
            }
        }
        k = k + 1;
    }
    ArgKind::Other
}

/// The text that `String::from_utf8` decodes from `b`, or nothing where `b`
/// is not UTF-8.
pub uninterp spec fn utf8_decode(b: Seq<u8>) -> Option<Seq<char>>;

/// Relies on `String::from_utf8`: the text of `b` where it is valid UTF-8.
#[verifier::external_body]
fn utf8_text(b: Vec<u8>) -> (r: Option<String>)
    ensures
        match r {
            Some(t) => utf8_decode(b@) == Some(t@),
            None => utf8_decode(b@) is None,
        },
{
    String::from_utf8(b).ok()
}

/// The text of an optional string.
pub open spec fn opt_text(o: Option<String>) -> Option<Seq<char>> {
    match o {
        Some(t) => Some(t@),
        None => None,
    }
}

/// The argument tokens as byte sequences.
pub open spec fn tokens_view(v: Seq<Vec<u8>>) -> Seq<Seq<u8>> {
    v.map_values(|a: Vec<u8>| a@)
}

/// What the rewriting gathers from the build coordinator's arguments.
#[derive(Debug)]
pub struct ParsedArgs {
    /// The tokens passed on, in order (without `--target-dir` and its value).
    pub new_args: Vec<Vec<u8>>,
    /// The values of `-p` / `--package`, in order.
    pub packages: Vec<Vec<u8>>,
    /// The values of `-b` / `--bin`, in order.
    pub bins: Vec<Vec<u8>>,
    /// The output directory: the last `--target-dir` value, or the initial one.
    pub target_dir: Vec<u8>,
    /// The target triple: the last `--target` value, or the initial one.
    pub target: Option<String>,
}

/// The value of what the rewriting gathers.
pub struct ParsedView {
    pub new_args: Seq<Seq<u8>>,
    pub packages: Seq<Seq<u8>>,
    pub bins: Seq<Seq<u8>>,
    pub target_dir: Seq<u8>,
    pub target: Option<Seq<char>>,
}

impl View for ParsedArgs {
    type V = ParsedView;

    open spec fn view(&self) -> ParsedView {
        ParsedView {
            new_args: tokens_view(self.new_args@),
            packages: tokens_view(self.packages@),
            bins: tokens_view(self.bins@),
            target_dir: self.target_dir@,
            target: opt_text(self.target),
        }
    }
}

/// Why the build coordinator's arguments were refused.
#[derive(Debug)]
pub enum CargoArgsError {
    /// An option that takes a value came last.
    MissingValue { arg: Vec<u8> },
    /// The value of `--target` is not UTF-8.
    InvalidTarget { value: Vec<u8> },
}

/// The value of a refusal.
pub enum ArgsFailure {
    MissingValue(Seq<u8>),
    InvalidTarget(Seq<u8>),
}

impl CargoArgsError {
    pub open spec fn failure(&self) -> ArgsFailure {
        match self {
            CargoArgsError::MissingValue { arg } => ArgsFailure::MissingValue(arg@),
            CargoArgsError::InvalidTarget { value } => ArgsFailure::InvalidTarget(value@),
        }
    }
}

/// The bytes of `-`.
pub open spec fn dash() -> u8 {
    45u8
}

/// Reading the tokens from position `i` on, with `st` gathered so far: each
/// option that takes a value takes the token after it; any other token that
/// starts with `-` is taken to carry a value in the token after it, where
/// there is one.
pub open spec fn parse_from(args: Seq<Seq<u8>>, i: int, st: ParsedView) -> Result<
    ParsedView,
    ArgsFailure,
>
    decreases args.len() - i,
{
    if i < 0 || i >= args.len() {
        Ok(st)
    } else {
        let a = args[i];
        let has_value = i + 1 < args.len();
        let v = args[i + 1];
        match arg_kind(a) {
            ArgKind::Package => if !has_value {
                Err(ArgsFailure::MissingValue(a))
            } else {
                parse_from(args, i + 2, ParsedView {
                    new_args: st.new_args.push(a).push(v),
                    packages: st.packages.push(v),
                    ..st
                })
            },
            ArgKind::TargetDir => if !has_value {
                Err(ArgsFailure::MissingValue(a))
            } else {
                parse_from(args, i + 2, ParsedView { target_dir: v, ..st })
            },
            ArgKind::Target => if !has_value {
                Err(ArgsFailure::MissingValue(a))
            } else {
                match utf8_decode(v) {
                    Some(t) => parse_from(args, i + 2, ParsedView {
                        new_args: st.new_args.push(a).push(v),
                        target: Some(t),
                        ..st
                    }),
                    None => Err(ArgsFailure::InvalidTarget(v)),
                }
            },
            ArgKind::Bin => if !has_value {
                Err(ArgsFailure::MissingValue(a))
            } else {
                parse_from(args, i + 2, ParsedView {
                    new_args: st.new_args.push(a).push(v),
                    bins: st.bins.push(v),
                    ..st
                })
            },
            ArgKind::Switch => parse_from(args, i + 1, ParsedView { new_args: st.new_args.push(a), ..st }),
            ArgKind::Other => if a.len() > 0 && a[0] == dash() && has_value {
                parse_from(args, i + 2, ParsedView { new_args: st.new_args.push(a).push(v), ..st })
            } else {
                parse_from(args, i + 1, ParsedView { new_args: st.new_args.push(a), ..st })
            },
        }
    }
}

/// The state before any token is read.
pub open spec fn parse_start(target_dir: Seq<u8>, target: Option<Seq<char>>) -> ParsedView {
    ParsedView {
        new_args: Seq::empty(),
        packages: Seq::empty(),
        bins: Seq::empty(),
        target_dir,
        target,
    }
}

/// Reads the build coordinator's argument tokens (without the program name),
/// starting from the output directory `target_dir` and the target `target`
/// that the environment gives.
pub fn parse_cargo_args(args: &Vec<Vec<u8>>, target_dir: Vec<u8>, target: Option<String>) -> (r: Result<
    ParsedArgs,
    CargoArgsError,
>)
    ensures
        match parse_from(
            tokens_view(args@),
            0,
            parse_start(target_dir@, opt_text(target)),
        ) {
            Ok(p) => r is Ok && r->Ok_0@ == p,
            Err(f) => r is Err && r->Err_0.failure() == f,
        },
{
    let ghost av = tokens_view(args@);
    let ghost init = parse_start(target_dir@, opt_text(target));
    let mut st = ParsedArgs {
        new_args: Vec::new(),
        packages: Vec::new(),
        bins: Vec::new(),
        target_dir,
        target,
    };
    let ghost start = st@;
    assert(start.new_args =~= Seq::<Seq<u8>>::empty());
    assert(start.packages =~= Seq::<Seq<u8>>::empty());
    assert(start.bins =~= Seq::<Seq<u8>>::empty());
    assert(start == init);
    let n = args.len();
    let mut i: usize = 0;
    while i < n
        invariant
            n == args.len(),
            av == tokens_view(args@),
            0 <= i <= n,
            init == parse_start(target_dir@, opt_text(target)),
            parse_from(av, 0, init) == parse_from(av, i as int, st@),
        decreases n - i,
    {
        let a = args[i].clone();
        assert(av[i as int] == a@);
        let kind = classify(&a);
        let has_value = i + 1 < n;
        let ghost before = st@;
        match kind {
            ArgKind::Switch => {
                st.new_args.push(a);
                assert(st@.new_args =~= before.new_args.push(av[i as int]));
                assert(st@ == ParsedView { new_args: before.new_args.push(av[i as int]), ..before });
                i = i + 1;
            },
            ArgKind::Other => {
                let dashed = a.len() > 0 && a[0] == 45u8;
                st.new_args.push(a);
                if dashed && has_value {
                    let v = args[i + 1].clone();
                    assert(av[i + 1] == v@);
                    st.new_args.push(v);
                    assert(st@.new_args =~= before.new_args.push(av[i as int]).push(av[i + 1]));
                    assert(st@ == ParsedView { new_args: before.new_args.push(av[i as int]).push(av[i + 1]), ..before });
                    i = i + 2;
                } else {
                    assert(st@.new_args =~= before.new_args.push(av[i as int]));
                    assert(st@ == ParsedView { new_args: before.new_args.push(av[i as int]), ..before });
                    i = i + 1;
                }
            },
            _ => {
                if !has_value {
                    assert(parse_from(av, i as int, st@) == Err::<ParsedView, ArgsFailure>(
                        ArgsFailure::MissingValue(a@),
                    ));
                    return Err(CargoArgsError::MissingValue { arg: a });
                }
                let v = args[i + 1].clone();
                assert(av[i + 1] == v@);
                match kind {
                    ArgKind::Package => {
                        st.packages.push(v.clone());
                        st.new_args.push(a);
                        st.new_args.push(v);
                        assert(st@.new_args =~= before.new_args.push(av[i as int]).push(av[i + 1]));
                        assert(st@.packages =~= before.packages.push(av[i + 1]));
                    },
                    ArgKind::TargetDir => {
                        st.target_dir = v;
                    },
                    ArgKind::Target => {
                        let v_bytes = v.clone();
                        match utf8_text(v_bytes) {
                            Some(t) => {
                                st.target = Some(t);
                            },
                            None => {
                                assert(parse_from(av, i as int, st@) == Err::<ParsedView, ArgsFailure>(
                                    ArgsFailure::InvalidTarget(v@),
                                ));
                                return Err(CargoArgsError::InvalidTarget { value: v });
                            },
                        }
                        st.new_args.push(a);
                        st.new_args.push(v);
                        assert(st@.new_args =~= before.new_args.push(av[i as int]).push(av[i + 1]));
                    },
                    _ => {
                        st.bins.push(v.clone());
                        st.new_args.push(a);
                        st.new_args.push(v);
                        assert(st@.new_args =~= before.new_args.push(av[i as int]).push(av[i + 1]));
                        assert(st@.bins =~= before.bins.push(av[i + 1]));
                    },
                }
                i = i + 2;
            },
        }
    }
    Ok(st)
}

/// `a` comes no later than `b` in the lexicographic order of byte strings.
pub open spec fn bytes_le(a: Seq<u8>, b: Seq<u8>) -> bool
    decreases a.len(),
{
    if a.len() == 0 {
        true
    } else if b.len() == 0 {
        false
    } else if a[0] != b[0] {
        a[0] < b[0]
    } else {
        bytes_le(a.drop_first(), b.drop_first())
    }
}

/// `s` is in ascending lexicographic order.
pub open spec fn is_sorted_tokens(s: Seq<Seq<u8>>) -> bool {
    forall|i: int, j: int| 0 <= i < j < s.len() ==> bytes_le(#[trigger] s[i], #[trigger] s[j])
}

/// `r` holds the tokens of `v`, in ascending lexicographic order.
pub open spec fn is_sorted_of(r: Seq<Seq<u8>>, v: Seq<Seq<u8>>) -> bool {
    &&& r.to_multiset() == v.to_multiset()
    &&& is_sorted_tokens(r)
}

/// Relies on `slice::sort` for `Vec<u8>` items, which `Ord` orders
/// lexicographically: the same items, in ascending order.
#[verifier::external_body]
fn sort_tokens(v: Vec<Vec<u8>>) -> (r: Vec<Vec<u8>>)
    ensures
        is_sorted_of(tokens_view(r@), tokens_view(v@)),
{
    let mut v = v;
    v.sort();
    v
}

/// The tokens of `s`, with `sep` between each two.
pub open spec fn joined(s: Seq<Seq<u8>>, sep: Seq<u8>) -> Seq<u8>
    decreases s.len(),
{
    if s.len() == 0 {
        Seq::empty()
    } else if s.len() == 1 {
        s[0]
    } else {
        joined(s.drop_last(), sep) + sep + s.last()
    }
}

fn join_tokens(parts: &Vec<Vec<u8>>, sep: u8) -> (r: Vec<u8>)
    ensures
        r@ == joined(tokens_view(parts@), seq![sep]),
{
    let ghost pv = tokens_view(parts@);
    let mut r: Vec<u8> = Vec::new();
    let mut i: usize = 0;
    while i < parts.len()
        invariant
            pv == tokens_view(parts@),
            0 <= i <= parts.len(),
            r@ == joined(pv.subrange(0, i as int), seq![sep]),
        decreases parts.len() - i,
    {
        let ghost prefix = pv.subrange(0, i as int);
        let ghost next = pv.subrange(0, i + 1);
        assert(next.drop_last() =~= prefix);
        assert(next.last() == parts@[i as int]@);
        if i > 0 {
            r.push(sep);
        }
        let part = &parts[i];
        let mut k: usize = 0;
        let ghost base = r@;
        while k < part.len()
            invariant
                0 <= k <= part.len(),
                r@ == base + part@.subrange(0, k as int),
            decreases part.len() - k,
        {
            r.push(part[k]);
            assert(r@ =~= base + part@.subrange(0, k + 1));
            k = k + 1;
        }
        assert(part@.subrange(0, part.len() as int) =~= part@);
        if i == 0 {
            assert(r@ =~= joined(next, seq![sep]));
        } else {
            assert(r@ =~= joined(next, seq![sep]));
        }
        i = i + 1;
    }
    assert(pv.subrange(0, parts.len() as int) =~= pv);
    r
}

/// The bytes of `/pkg/`.
pub open spec fn pkg_infix() -> Seq<u8> {
    seq![47u8, 112u8, 107u8, 103u8, 47u8]
}

/// The bytes of `/bin/`.
pub open spec fn bin_infix() -> Seq<u8> {
    seq![47u8, 98u8, 105u8, 110u8, 47u8]
}

/// The output directory for one build: under `<dir>/pkg/` named by the
/// sorted packages joined by `-` where packages were named; else under
/// `<dir>/bin/` named by the sorted binaries; else `dir` itself.
pub open spec fn is_output_dir(r: Seq<u8>, dir: Seq<u8>, packages: Seq<Seq<u8>>, bins: Seq<Seq<u8>>) -> bool {
    if packages.len() > 0 {
        exists|ps: Seq<Seq<u8>>|
            is_sorted_of(ps, packages) && r == dir + pkg_infix() + #[trigger] joined(ps, seq![dash()])
    } else if bins.len() > 0 {
        exists|bs: Seq<Seq<u8>>|
            is_sorted_of(bs, bins) && r == dir + bin_infix() + #[trigger] joined(bs, seq![dash()])
    } else {
        r == dir
    }
}

/// Derives the output directory of one build from the output directory
/// given and the packages and binaries named.
pub fn output_dir(target_dir: Vec<u8>, packages: Vec<Vec<u8>>, bins: Vec<Vec<u8>>) -> (r: Vec<u8>)
    ensures
        is_output_dir(r@, target_dir@, tokens_view(packages@), tokens_view(bins@)),
{
    let (infix, names) = if packages.len() > 0 {
        let infix: Vec<u8> = vec![47u8, 112u8, 107u8, 103u8, 47u8];
        assert(infix@ =~= pkg_infix());
        (infix, sort_tokens(packages))
    } else if bins.len() > 0 {
        let infix: Vec<u8> = vec![47u8, 98u8, 105u8, 110u8, 47u8];
        assert(infix@ =~= bin_infix());
        (infix, sort_tokens(bins))
    } else {
        return target_dir;
    };
    let tail = join_tokens(&names, 45u8);
    let mut r = target_dir;
    let ghost base = r@;
    let mut k: usize = 0;
    while k < infix.len()
        invariant
            0 <= k <= infix.len(),
            r@ == base + infix@.subrange(0, k as int),
        decreases infix.len() - k,
    {
        r.push(infix[k]);
        assert(r@ =~= base + infix@.subrange(0, k + 1));
        k = k + 1;
    }
    assert(infix@.subrange(0, infix.len() as int) =~= infix@);
    let ghost mid = r@;
    k = 0;
    while k < tail.len()
        invariant
            0 <= k <= tail.len(),
            r@ == mid + tail@.subrange(0, k as int),
        decreases tail.len() - k,
    {
        r.push(tail[k]);
        assert(r@ =~= mid + tail@.subrange(0, k + 1));
        k = k + 1;
    }
    assert(tail@.subrange(0, tail.len() as int) =~= tail@);
    assert(r@ == base + infix@ + joined(tokens_view(names@), seq![dash()]));
    r
}

/// `s` with every match of the non-empty `from` replaced by `to`, the
/// matches taken from the left without overlap.
pub open spec fn replaced(s: Seq<char>, from: Seq<char>, to: Seq<char>) -> Seq<char>
    decreases s.len(),
{
    if from.len() == 0 || s.len() < from.len() {
        s
    } else if s.subrange(0, from.len() as int) == from {
        to + replaced(s.subrange(from.len() as int, s.len() as int), from, to)
    } else {
        seq![s[0]] + replaced(s.drop_first(), from, to)
    }
}

/// Relies on `str::replace`: every non-overlapping match of `from`, from the
/// left, replaced by `to`.
#[verifier::external_body]
fn replace_all(s: &str, from: &str, to: &str) -> (r: String)
    requires
        from@.len() > 0,
    ensures
        r@ == replaced(s@, from@, to@),
{
    s.replace(from, to)
}

/// The pieces of `s` between its commas, in order; an empty text is one
/// empty piece.
pub open spec fn comma_pieces(s: Seq<char>) -> Seq<Seq<char>>
    decreases s.len(),
{
    if s.len() == 0 {
        seq![Seq::empty()]
    } else {
        let rest = comma_pieces(s.drop_first());
        if s[0] == ',' {
            seq![Seq::empty()] + rest
        } else {
            rest.update(0, seq![s[0]] + rest[0])
        }
    }
}

/// Relies on `str::split` with the pattern `,`: the pieces between the
/// commas, in order.
#[verifier::external_body]
fn split_commas(s: &String) -> (r: Vec<String>)
    ensures
        r@.map_values(|p: String| p@) == comma_pieces(s@),
{
    s.split(',').map(String::from).collect()
}

/// The target triple as it appears in variable names: each `-` becomes `_`.
pub open spec fn target_in_names(target: Seq<char>) -> Seq<char> {
    replaced(target, "-"@, "_"@)
}

/// Turns a target triple into the form it takes in variable names.
pub fn target_underscores(target: &String) -> (r: String)
    ensures
        r@ == target_in_names(target@),
{
    proof {
        reveal_strlit("-");
    }
    replace_all(target.as_str(), "-", "_")
}

/// The renaming of one target-specific variable: the value is read from
/// the name with `target` replaced by the target, and set under the name
/// with `_target` removed.
pub open spec fn is_renaming(r: (Seq<char>, Seq<char>), name: Seq<char>, target: Seq<char>) -> bool {
    &&& r.0 == replaced(name, "target"@, target)
    &&& r.1 == replaced(name, "_target"@, ""@)
}

/// For each name in the comma-separated list `names`, the variable to read
/// and the variable to set, given the target in the form of variable names.
pub fn target_env_renames(names: &String, target: &String) -> (r: Vec<(String, String)>)
    ensures
        r.len() == comma_pieces(names@).len(),
        forall|i: int|
            0 <= i < r.len() ==> is_renaming(
                (#[trigger] r@[i].0@, r@[i].1@),
                comma_pieces(names@)[i],
                target@,
            ),
{
    let pieces = split_commas(names);
    let ghost pv = pieces@.map_values(|p: String| p@);
    let mut r: Vec<(String, String)> = Vec::new();
    let mut i: usize = 0;
    while i < pieces.len()
        invariant
            pv == comma_pieces(names@),
            pv == pieces@.map_values(|p: String| p@),
            0 <= i <= pieces.len(),
            r.len() == i,
            forall|j: int| 0 <= j < i ==> is_renaming((#[trigger] r@[j].0@, r@[j].1@), pv[j], target@),
        decreases pieces.len() - i,
    {
        let name = pieces[i].as_str();
        assert(pv[i as int] == name@);
        proof {
            reveal_strlit("target");
            reveal_strlit("_target");
        }
        let from = replace_all(name, "target", target.as_str());
        let to = replace_all(name, "_target", "");
        r.push((from, to));
        i = i + 1;
    }
    r
}

/// The bytes of `host: `.
pub open spec fn host_prefix() -> Seq<u8> {
    seq![104u8, 111u8, 115u8, 116u8, 58u8, 32u8]
}

/// The end of the line of `out` that starts at `start`: the position of the
/// next newline, or the end of `out`.
pub open spec fn line_end(out: Seq<u8>, start: int) -> int
    decreases out.len() - start,
{
    if start < 0 || start >= out.len() {
        out.len() as int
    } else if out[start] == 10u8 {
        start
    } else {
        line_end(out, start + 1)
    }
}

/// The first line of `out`, from the line that starts at `start` on, that
/// begins with `host: `, as its start and end; none where no line does.
pub open spec fn host_line_from(out: Seq<u8>, start: int) -> Option<(int, int)>
    decreases out.len() - start,
{
    if start < 0 || start > out.len() {
        None
    } else {
        let end = line_end(out, start);
        if end - start >= 6 && out.subrange(start, start + 6) == host_prefix() {
            Some((start, end))
        } else if end < start || end >= out.len() {
            None
        } else {
            host_line_from(out, end + 1)
        }
    }
}

/// Why the host target could not be read from the compiler's version report.
#[derive(Debug, PartialEq, Eq, Structural)]
pub enum HostTargetError {
    /// No line begins with `host: `.
    NoHostLine,
    /// The rest of that line is not UTF-8.
    Malformed,
}

proof fn lemma_line_end_bounds(out: Seq<u8>, start: int)
    requires
        0 <= start <= out.len(),
    ensures
        start <= line_end(out, start) <= out.len(),
        line_end(out, start) < out.len() ==> out[line_end(out, start)] == 10u8,
    decreases out.len() - start,
{
    if start < out.len() && out[start] != 10u8 {
        lemma_line_end_bounds(out, start + 1);
    }
}

fn find_line_end(out: &Vec<u8>, start: usize) -> (r: usize)
    requires
        start <= out.len(),
    ensures
        r == line_end(out@, start as int),
{
    let mut k = start;
    while k < out.len() && out[k] != 10u8
        invariant
            start <= k <= out.len(),
            line_end(out@, start as int) == line_end(out@, k as int),
        decreases out.len() - k,
    {
        k = k + 1;
    }
    k
}

/// Reads the host target from the output of the compiler's `-vV`: the rest
/// of the first line that begins with `host: `.
pub fn host_target(out: &Vec<u8>) -> (r: Result<String, HostTargetError>)
    ensures
        match host_line_from(out@, 0) {
            None => r matches Err(HostTargetError::NoHostLine),
            Some((start, end)) => match utf8_decode(out@.subrange(start + 6, end)) {
                Some(t) => r is Ok && r->Ok_0@ == t,
                None => r matches Err(HostTargetError::Malformed),
            },
        },
{
    let prefix: Vec<u8> = vec![104u8, 111u8, 115u8, 116u8, 58u8, 32u8];
    assert(prefix@ =~= host_prefix());
    let mut start: usize = 0;
    loop
        invariant
            start <= out.len(),
            prefix@ == host_prefix(),
            host_line_from(out@, 0) == host_line_from(out@, start as int),
        decreases out.len() - start,
    {
        let end = find_line_end(out, start);
        proof {
            lemma_line_end_bounds(out@, start as int);
        }
        let mut is_host = end - start >= 6;
        let mut k: usize = 0;
        while is_host && k < 6
            invariant
                0 <= k <= 6,
                start + 6 <= end <= out.len() || !is_host,
                is_host ==> out@.subrange(start as int, start + k) == prefix@.subrange(0, k as int),
                !is_host ==> !(end - start >= 6 && out@.subrange(start as int, start + 6) == host_prefix()),
                prefix@ == host_prefix(),
            decreases 6 - k + if is_host { 1int } else { 0int },
        {
            if out[start + k] != prefix[k] {
                assert(out@.subrange(start as int, start + 6)[k as int] != host_prefix()[k as int]);
                is_host = false;
            } else {
                assert(out@.subrange(start as int, start + k + 1) =~= out@.subrange(start as int, start + k).push(out@[start + k]));
                assert(prefix@.subrange(0, k + 1) =~= prefix@.subrange(0, k as int).push(prefix@[k as int]));
                k = k + 1;
            }
        }
        if is_host {
            assert(prefix@.subrange(0, 6) =~= prefix@);
            let mut rest: Vec<u8> = Vec::new();
            let mut j: usize = start + 6;
            while j < end
                invariant
                    start + 6 <= j <= end <= out.len(),
                    rest@ == out@.subrange(start + 6, j as int),
                decreases end - j,
            {
                rest.push(out[j]);
                assert(rest@ =~= out@.subrange(start + 6, j + 1));
                j = j + 1;
            }
            return match utf8_text(rest) {
                Some(t) => Ok(t),
                None => Err(HostTargetError::Malformed),
            };
        }
        if end >= out.len() {
            return Err(HostTargetError::NoHostLine);
        }
        start = end + 1;
    }
}

/// The environment overrides after applying each pair of `pairs` in order.
pub open spec fn env_set_all(envs: Seq<(Seq<u8>, Seq<u8>)>, pairs: Seq<(Seq<u8>, Seq<u8>)>) -> Seq<(Seq<u8>, Seq<u8>)>
    decreases pairs.len(),
{
    if pairs.len() == 0 {
        envs
    } else {
        env_set(env_set_all(envs, pairs.drop_last()), pairs.last().0, pairs.last().1)
    }
}

/// The bytes of `CARGO_BUILD_TARGET_DIR`.
pub open spec fn target_dir_var() -> Seq<u8> {
    seq![67u8, 65u8, 82u8, 71u8, 79u8, 95u8, 66u8, 85u8, 73u8, 76u8, 68u8, 95u8, 84u8, 65u8, 82u8, 71u8, 69u8, 84u8, 95u8, 68u8, 73u8, 82u8]
}

/// Completes the build coordinator's context: the renamed target-specific
/// variables that were found, in order, then the arguments passed on, then
/// the output directory in `CARGO_BUILD_TARGET_DIR`.
pub fn finish_cargo(ctx: CommandBuildContext, found: Vec<(Vec<u8>, Vec<u8>)>, new_args: Vec<Vec<u8>>, target_dir: Vec<u8>) -> (r: CommandBuildContext)
    ensures
        r.arg_list() == ctx.arg_list() + tokens_view(new_args@),
        r.env_list() == env_set(
            env_set_all(ctx.env_list(), env_pairs_view(found@)),
            target_dir_var(),
            target_dir@,
        ),
{
    let mut ctx = ctx;
    let ghost e0 = ctx.env_list();
    let ghost a0 = ctx.arg_list();
    let ghost fv = env_pairs_view(found@);
    let mut i: usize = 0;
    while i < found.len()
        invariant
            fv == env_pairs_view(found@),
            0 <= i <= found.len(),
            ctx.arg_list() == a0,
            ctx.env_list() == env_set_all(e0, fv.subrange(0, i as int)),
        decreases found.len() - i,
    {
        let k = found[i].0.clone();
        let v = found[i].1.clone();
        assert(fv.subrange(0, i + 1).drop_last() =~= fv.subrange(0, i as int));
        assert(fv[i as int] == (k@, v@));
        ctx.env(k, v);
        i = i + 1;
    }
    assert(fv.subrange(0, found.len() as int) =~= fv);
    ctx.args(new_args);
    let var: Vec<u8> = vec![67u8, 65u8, 82u8, 71u8, 79u8, 95u8, 66u8, 85u8, 73u8, 76u8, 68u8, 95u8, 84u8, 65u8, 82u8, 71u8, 69u8, 84u8, 95u8, 68u8, 73u8, 82u8];
    assert(var@ =~= target_dir_var());
    ctx.env(var, target_dir);
    ctx
}

} // verus!
