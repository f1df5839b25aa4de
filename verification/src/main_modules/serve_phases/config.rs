//! Where the configuration of a model comes from, and what is adjusted in it.

use crate::cli::ServeArgs;
use crate::json;
use crate::json::{parse_json, Json};
use crate::model_resolver;
use crate::model_resolver::{CacheEnv, Resolution, Sight};
use crate::text;
use crate::text::copy_opt;
use crate::tokenizer::vocabulary;
use crate::tokenizer::vocabulary::vocab_size_of;
use vstd::prelude::*;
use vstd::string::*;

verus! {

/// Where the configuration of a model is read.
#[derive(Debug, Clone, Copy, PartialEq, Eq, Structural)]
pub enum ConfigSource {
    /// `config.json`.
    Config,
    /// `params.json`, in the Mistral format.
    Params,
    /// The metadata of a GGUF file.
    Gguf,
    /// Nowhere.
    Missing,
}

/// The configuration to load, given what the directory holds: `config.json`
/// first, then `params.json`, then the metadata of a GGUF file.
pub fn config_source(has_config: bool, has_params: bool, has_gguf: bool) -> (s: ConfigSource)
    ensures
        s == if has_config {
            ConfigSource::Config
        } else if has_params {
            ConfigSource::Params
        } else if has_gguf {
            ConfigSource::Gguf
        } else {
            ConfigSource::Missing
        },
{
    if !has_config && !has_params && has_gguf {
        return ConfigSource::Gguf;
    }
    if has_config {
        ConfigSource::Config
    } else if has_params {
        ConfigSource::Params
    } else {
        ConfigSource::Missing
    }
}

/// Why no configuration can be loaded from a directory.
pub fn missing_config_message(model_dir: &str) -> (m: String)
    ensures
        m@ == "No config.json, params.json, or .gguf found in "@ + model_dir@,
{
    let mut m: String = "No config.json, params.json, or .gguf found in ".to_owned();
    m.append(model_dir);
    m
}

/// The object that holds the sidecar text as the quantization section.
pub open spec fn wrapped_sidecar(raw: Seq<char>) -> Seq<char> {
    "{\"quantization_config\":"@ + raw + "}"@
}

/// The quantization section to merge from the text of `hf_quant_config.json`:
/// none when the configuration has one already, when there is no such file, or
/// when it is no JSON.
pub fn merge_sidecar_quant_config(already_present: bool, sidecar: Option<&str>) -> (r: Option<Json>)
    ensures
        json::opt_view(r) == match sidecar {
            Some(raw) => if already_present {
                None
            } else {
                json::parsed_json(wrapped_sidecar(raw@))
            },
            None => None,
        },
{
    if already_present {
        return None;
    }
    match sidecar {
        None => None,
        Some(raw) => {
            let mut wrapped: String = "{\"quantization_config\":".to_owned();
            wrapped.append(raw);
            wrapped.append("}");
            parse_json(wrapped.as_str())
        },
    }
}

/// The specifier of the model: the path option goes before the model itself.
pub open spec fn model_spec(args: ServeArgs) -> Option<Seq<char>> {
    match args.model_from_path {
        Some(p) => Some(p@),
        None => text::opt_text(args.model),
    }
}

/// The environment of the cache, with the command line's directory.
pub open spec fn env_with_args(env: model_resolver::EnvView, args: ServeArgs) -> model_resolver::EnvView {
    model_resolver::EnvView { cache_dir: text::opt_text(args.cache_dir), ..env }
}

fn resolve_spec(spec: &str, args: &ServeArgs, env: &CacheEnv, disk: &Vec<Sight>) -> (r: Resolution)
    ensures
        r@ == model_resolver::model_dir(
            spec@,
            env_with_args(env@, *args),
            model_resolver::sights(disk@),
        ),
{
    let e = CacheEnv {
        cache_dir: copy_opt(&args.cache_dir),
        hf_hub_cache: copy_opt(&env.hf_hub_cache),
        hf_home: copy_opt(&env.hf_home),
        home: copy_opt(&env.home),
    };
    assert(e@ == env_with_args(env@, *args));
    model_resolver::resolve_model_dir(spec, &e, disk)
}

/// Resolves the model of the command line to a directory.
pub fn resolve_model_dir(args: &ServeArgs, env: &CacheEnv, disk: &Vec<Sight>) -> (r: Resolution)
    ensures
        r@ == match model_spec(*args) {
            Some(spec) => model_resolver::model_dir(
                spec,
                env_with_args(env@, *args),
                model_resolver::sights(disk@),
            ),
            None => model_resolver::ResolutionView::Failed(
                "Either MODEL or --model-from-path is required"@,
            ),
        },
{
    match &args.model_from_path {
        Some(path) => resolve_spec(path.as_str(), args, env, disk),
        None => match &args.model {
            Some(model) => resolve_spec(model.as_str(), args, env, disk),
            None => Resolution::Failed(
                "Either MODEL or --model-from-path is required".to_owned(),
            ),
        },
    }
}

/// A vocabulary size, no larger than that of a tokenizer that has tokens at all.
pub open spec fn capped_size(vocab_size: usize, tokens: usize) -> usize {
    if 0 < tokens < vocab_size {
        tokens
    } else {
        vocab_size
    }
}

/// Caps a vocabulary size to a number of tokens; no tokens cap nothing.
pub fn cap_vocab_size(vocab_size: usize, tokens: usize) -> (n: usize)
    ensures
        n == capped_size(vocab_size, tokens),
{
    if tokens > 0 && tokens < vocab_size {
        tokens
    } else {
        vocab_size
    }
}

/// The vocabulary size of a model, no larger than that of its tokenizer. A
/// tokenizer that could not be read caps nothing.
pub fn cap_vocab_size_to_tokenizer(
    vocab_size: usize,
    tokenizer: Option<&tokenizers::Tokenizer>,
) -> (n: usize)
    ensures
        n == match tokenizer {
            Some(t) => capped_size(vocab_size, vocabulary::token_count(*t)),
            None => vocab_size,
        },
{
    match tokenizer {
        Some(t) => cap_vocab_size(vocab_size, vocab_size_of(t)),
        None => vocab_size,
    }
}

/// Takes over the model's number of drafts where the command line has the
/// default of one.
pub fn apply_model_default_num_drafts(args: &mut ServeArgs, default_num_drafts: u32)
    ensures
        *final(args) == if default_num_drafts > 0 && old(args).num_drafts == 1 {
            ServeArgs { num_drafts: default_num_drafts as usize, ..*old(args) }
        } else {
            *old(args)
        },
{
    if default_num_drafts > 0 && args.num_drafts == 1 {
        args.num_drafts = default_num_drafts as usize;
    }
}

// ── laws ──

/// A capped size is that of the model or that of the tokenizer, whichever is
/// smaller; a tokenizer without tokens caps nothing.
pub proof fn capped_sizes_fit_both(vocab_size: usize, tokens: usize)
    ensures
        capped_size(vocab_size, tokens) <= vocab_size,
        tokens > 0 ==> capped_size(vocab_size, tokens) <= tokens,
        tokens >= vocab_size ==> capped_size(vocab_size, tokens) == vocab_size,
        0 < tokens <= vocab_size ==> capped_size(vocab_size, tokens) == tokens,
        capped_size(vocab_size, 0) == vocab_size,
{
}

/// A path on the command line goes before the model, and the model counts when
/// there is no path.
pub proof fn paths_go_before_models(args: ServeArgs)
    ensures
        args.model_from_path matches Some(p) ==> model_spec(args) == Some(p@),
        args.model_from_path is None ==> (args.model matches Some(m) ==> model_spec(args) == Some(
            m@,
        )),
        args.model_from_path is None && args.model is None ==> model_spec(args) is None,
{
}

/// The cache directory of the command line replaces that of the environment, and
/// nothing else of it.
pub proof fn cache_dir_comes_from_the_command_line(
    env: model_resolver::EnvView,
    args: ServeArgs,
)
    ensures
        env_with_args(env, args).cache_dir == text::opt_text(args.cache_dir),
        env_with_args(env, args).hf_hub_cache == env.hf_hub_cache,
        env_with_args(env, args).hf_home == env.hf_home,
        env_with_args(env, args).home == env.home,
{
}

} // verus!
