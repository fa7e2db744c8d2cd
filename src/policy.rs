//! The compiler's rewriting: pass every token on, or refuse compilation.
use crate::command::{bytes_eq, CommandBuildContext};
use vstd::prelude::*;

verus! {

/// The bytes of `"1"`.
pub open spec fn one_bytes() -> Seq<u8> {
    seq![49u8]
}

/// The bytes of `"true"`.
pub open spec fn true_bytes() -> Seq<u8> {
    seq![116u8, 114u8, 117u8, 101u8]
}

/// The bytes of `"-vV"`.
pub open spec fn verbose_version_bytes() -> Seq<u8> {
    seq![45u8, 118u8, 86u8]
}

/// The bytes of `"--version"`.
pub open spec fn version_bytes() -> Seq<u8> {
    seq![45u8, 45u8, 118u8, 101u8, 114u8, 115u8, 105u8, 111u8, 110u8]
}

/// The bytes of `"___"`.
pub open spec fn probe_marker_bytes() -> Seq<u8> {
    seq![95u8, 95u8, 95u8]
}

/// A switch variable is on where it is set to `1` or `true`.
pub open spec fn flag_is_on(value: Option<Seq<u8>>) -> bool {
    value == Some(one_bytes()) || value == Some(true_bytes())
}

/// Whether a switch variable with this value (or unset) is on.
pub fn is_flag_set(value: &Option<Vec<u8>>) -> (r: bool)
    ensures
        r == flag_is_on(
            match value {
                Some(v) => Some(v@),
                None => None,
            },
        ),
{
    match value {
        Some(v) => {
            let one: Vec<u8> = vec![49u8];
            let t: Vec<u8> = vec![116u8, 114u8, 117u8, 101u8];
            assert(one@ =~= one_bytes());
            assert(t@ =~= true_bytes());
            bytes_eq(v, &one) || bytes_eq(v, &t)
        },
        None => false,
    }
}

/// An invocation of the compiler that only asks about its configuration:
/// `-vV` or `--version` first, or `___` as the third token.
pub open spec fn is_config_query(args: Seq<Seq<u8>>) -> bool {
    ||| (args.len() > 0 && args[0] == verbose_version_bytes())
    ||| (args.len() > 0 && args[0] == version_bytes())
    ||| (args.len() > 2 && args[2] == probe_marker_bytes())
}

/// The compiler was invoked while compilation is denied.
#[derive(Debug)]
pub struct CompilationDenied {
    /// The invocation's argument tokens.
    pub args: Vec<Vec<u8>>,
}

/// Tells whether `args` is a configuration query of the compiler.
pub fn config_query(args: &Vec<Vec<u8>>) -> (r: bool)
    ensures
        r == is_config_query(args@.map_values(|a: Vec<u8>| a@)),
{
    let ghost view = args@.map_values(|a: Vec<u8>| a@);
    let vv: Vec<u8> = vec![45u8, 118u8, 86u8];
    let version: Vec<u8> = vec![45u8, 45u8, 118u8, 101u8, 114u8, 115u8, 105u8, 111u8, 110u8];
    let marker: Vec<u8> = vec![95u8, 95u8, 95u8];
    assert(vv@ =~= verbose_version_bytes());
    assert(version@ =~= version_bytes());
    assert(marker@ =~= probe_marker_bytes());
    if args.len() > 0 {
        assert(view[0] == args@[0]@);
        if bytes_eq(&args[0], &vv) || bytes_eq(&args[0], &version) {
            return true;
        }
    }
    if args.len() > 2 {
        assert(view[2] == args@[2]@);
        if bytes_eq(&args[2], &marker) {
            return true;
        }
    }
    false
}

/// The compiler's rewriting: every argument token of the invocation is passed on
/// unchanged; where compilation is denied, any invocation but a
/// configuration query is refused instead.
pub fn rewrite_rustc(ctx: CommandBuildContext, args: Vec<Vec<u8>>, deny: bool) -> (r: Result<
    CommandBuildContext,
    CompilationDenied,
>)
    ensures
        r is Err <==> deny && !is_config_query(args@.map_values(|a: Vec<u8>| a@)),
        r matches Ok(c) ==> c.arg_list() == ctx.arg_list() + args@.map_values(|a: Vec<u8>| a@)
            && c.env_list() == ctx.env_list(),
        r matches Err(e) ==> e.args@.map_values(|a: Vec<u8>| a@) == args@.map_values(
            |a: Vec<u8>| a@,
        ),
{
    if deny && !config_query(&args) {
        return Err(CompilationDenied { args });
    }
    let mut ctx = ctx;
    ctx.args(args);
    Ok(ctx)
}

} // verus!
