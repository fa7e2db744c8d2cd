//! Interception of a tool invocation: find the next executable of the same
//! name on the search path, and prepare the rewritten invocation of it.
mod cargo;
mod command;
mod intercept;
mod policy;
mod resolve;

pub use command::{
    env_map, env_set, keys_unique, lemma_env_set_last_write_wins, CommandBuildContext,
};
pub use intercept::{
    callback_is_pure, file_name_of, intercept_outcome, lemma_callback_error_short_circuits,
    lemma_intercept_repeatable, same_outcome, is_empty_context, prepared_from, Intercept, InterceptError,
    PreparedCommand,
};
pub use resolve::{
    find_next_bin, lemma_last_entry_is_missing, lemma_next_after_single_self, lemma_next_bin_is_not_self,
    lemma_no_match,
    next_bin_spec, paths_view, FindNextBinError, Resolution,
};
pub use policy::{
    config_query, flag_is_on, is_config_query, is_flag_set, rewrite_rustc, CompilationDenied,
};
pub use cargo::{
    arg_kind, bytes_le, classify, comma_pieces, env_set_all, finish_cargo, host_line_from,
    host_target, is_output_dir, is_renaming, is_sorted_of, joined, line_end, output_dir,
    parse_cargo_args, parse_from, parse_start, replaced, target_env_renames, target_in_names,
    target_underscores, tokens_view, utf8_decode, ArgKind, ArgsFailure, CargoArgsError,
    HostTargetError, ParsedArgs, ParsedView,
};
