//! What is settled before the server serves.

use spark_server::cli::ServeArgs;
use spark_server::json::string;
use spark_server::main_modules::serve_phases::config::{
    apply_model_default_num_drafts, cap_vocab_size, cap_vocab_size_to_tokenizer, config_source,
    merge_sidecar_quant_config, missing_config_message, resolve_model_dir, ConfigSource,
};
use spark_server::main_modules::serve_phases::kv_cache::{
    effective_kv_dtype, high_precision_layers, resolve_kv_cache_config, resolve_prefill_budget,
};
use spark_server::model_resolver::{CacheEnv, Resolution};

fn args() -> ServeArgs {
    ServeArgs {
        model: None,
        model_from_path: None,
        cache_dir: None,
        speculative: false,
        self_speculative: false,
        ngram_speculative: false,
        num_drafts: 1,
        max_prefill_tokens: 8192,
        max_seq_len: 65536,
        max_batch_size: 8,
        block_size: 16,
        enable_prefix_caching: false,
        ssm_checkpoint_interval: 0,
        ssm_cache_slots: 0,
        high_speed_swap: false,
        high_speed_swap_cache_blocks_per_seq: 64,
        kv_cache_dtype: "fp8".into(),
        kv_high_precision_layers: "0".into(),
    }
}

#[test]
fn default_budget() {
    let b = resolve_prefill_budget(&args(), 0);
    assert_eq!((b.prefill_budget, b.max_batch_tokens, b.spec_tokens), (8192, 8200, 1));
    let b = resolve_prefill_budget(&args(), 2048);
    assert_eq!(b.prefill_budget, 2048);
}

#[test]
fn a_prefill_size_of_the_user_goes_first() {
    let a = ServeArgs { max_prefill_tokens: 512, ..args() };
    assert_eq!(resolve_prefill_budget(&a, 2048).prefill_budget, 512);
    let a = ServeArgs { max_prefill_tokens: 0, ..args() };
    assert_eq!(resolve_prefill_budget(&a, 0).prefill_budget, 65536);
    assert_eq!(resolve_prefill_budget(&a, 2048).prefill_budget, 2048);
}

#[test]
fn chunks_end_at_checkpoints() {
    let a = ServeArgs {
        enable_prefix_caching: true,
        ssm_checkpoint_interval: 64,
        ssm_cache_slots: 4,
        ..args()
    };
    assert_eq!(resolve_prefill_budget(&a, 0).prefill_budget, 1024);
    assert_eq!(resolve_prefill_budget(&a, 512).prefill_budget, 512);
    let a = ServeArgs { max_prefill_tokens: 4096, ..a };
    assert_eq!(resolve_prefill_budget(&a, 0).prefill_budget, 4096);
}

#[test]
fn chunks_fit_the_rolling_window() {
    let a = ServeArgs { high_speed_swap: true, ..args() };
    let b = resolve_prefill_budget(&a, 0);
    assert_eq!(b.prefill_budget, 64 * 16 - 8);
    assert_eq!(b.max_batch_tokens, 64 * 16);
    let a = ServeArgs { high_speed_swap: true, max_batch_size: 2000, ..args() };
    assert_eq!(resolve_prefill_budget(&a, 0).prefill_budget, 0);
}

#[test]
fn speculative_steps_have_room() {
    let a = ServeArgs {
        ngram_speculative: true,
        num_drafts: 10,
        max_prefill_tokens: 1,
        max_batch_size: 2,
        ..args()
    };
    let b = resolve_prefill_budget(&a, 0);
    assert_eq!((b.spec_tokens, b.max_batch_tokens), (12, 12));
}

#[test]
fn the_model_recommends_a_precision() {
    assert_eq!(effective_kv_dtype("fp8", ""), "fp8");
    assert_eq!(effective_kv_dtype("fp8", "bf16"), "bf16");
    assert_eq!(effective_kv_dtype("nvfp4", "bf16"), "nvfp4");
    assert_eq!(effective_kv_dtype("fp8", "fp8"), "fp8");
}

#[test]
fn layers_of_high_precision() {
    assert_eq!(high_precision_layers("max", 12, false), 12);
    assert_eq!(high_precision_layers("all", 12, false), 12);
    assert_eq!(high_precision_layers("auto", 12, false), 2);
    assert_eq!(high_precision_layers("3", 12, false), 3);
    assert_eq!(high_precision_layers("three", 12, false), 0);
    assert_eq!(high_precision_layers("0", 12, true), 4);
    assert_eq!(high_precision_layers("0", 13, true), 5);
    assert_eq!(high_precision_layers("0", 1, true), 2);
}

#[test]
fn the_plan_of_the_cache() {
    let a = ServeArgs {
        high_speed_swap: true,
        kv_high_precision_layers: "MAX".into(),
        ..args()
    };
    let plan = resolve_kv_cache_config(&a, 10, "bf16", 'b', false);
    assert_eq!(plan.effective_kv_dtype_str, "bf16");
    assert_eq!(plan.kv_dtype, 'b');
    assert_eq!(plan.high_precision_layers, 10);
    assert_eq!(plan.hss_cache_blocks_per_seq, Some(64));
    let plan = resolve_kv_cache_config(&args(), 10, "", 'f', false);
    assert_eq!(plan.hss_cache_blocks_per_seq, None);
}

#[test]
fn where_the_configuration_is() {
    assert_eq!(config_source(true, true, true), ConfigSource::Config);
    assert_eq!(config_source(false, true, true), ConfigSource::Params);
    assert_eq!(config_source(false, false, true), ConfigSource::Gguf);
    assert_eq!(config_source(false, false, false), ConfigSource::Missing);
    assert_eq!(
        missing_config_message("/m"),
        "No config.json, params.json, or .gguf found in /m"
    );
}

#[test]
fn the_sidecar_is_wrapped() {
    let j = merge_sidecar_quant_config(false, Some("{\"quant_algo\":\"NVFP4\"}")).unwrap();
    let q = j.get("quantization_config").unwrap();
    assert_eq!(*q.get("quant_algo").unwrap(), string("NVFP4"));
    assert_eq!(merge_sidecar_quant_config(true, Some("{}")), None);
    assert_eq!(merge_sidecar_quant_config(false, None), None);
    assert_eq!(merge_sidecar_quant_config(false, Some("{")), None);
}

#[test]
fn the_model_of_the_command_line() {
    let env = CacheEnv { cache_dir: None, hf_hub_cache: None, hf_home: None, home: None };
    match resolve_model_dir(&args(), &env, &Vec::new()) {
        Resolution::Failed(m) => assert_eq!(m, "Either MODEL or --model-from-path is required"),
        _ => panic!("expected a failure"),
    }
    let a = ServeArgs {
        model: Some("o/m".into()),
        model_from_path: Some("/here".into()),
        ..args()
    };
    match resolve_model_dir(&a, &env, &Vec::new()) {
        Resolution::Look(p) => assert_eq!(p, "/here"),
        _ => panic!("expected a question"),
    }
}

#[test]
fn the_vocabulary_is_capped() {
    assert_eq!(cap_vocab_size(100, 90), 90);
    assert_eq!(cap_vocab_size(100, 0), 100);
    assert_eq!(cap_vocab_size(100, 120), 100);
    let t = tokenizers::Tokenizer::from_bytes(
        br#"{"version": "1.0", "truncation": null, "padding": null,
            "added_tokens": [{"id": 2, "content": "c", "single_word": false,
                "lstrip": false, "rstrip": false, "normalized": false, "special": true}],
            "normalizer": null, "pre_tokenizer": null, "post_processor": null, "decoder": null,
            "model": {"type": "WordLevel", "vocab": {"a": 0, "b": 1}, "unk_token": "a"}}"#,
    )
    .unwrap();
    assert_eq!(cap_vocab_size_to_tokenizer(100, Some(&t)), 3);
    assert_eq!(cap_vocab_size_to_tokenizer(2, Some(&t)), 2);
    assert_eq!(cap_vocab_size_to_tokenizer(100, None), 100);
}

#[test]
fn drafts_of_the_model() {
    let mut a = args();
    apply_model_default_num_drafts(&mut a, 3);
    assert_eq!(a.num_drafts, 3);
    apply_model_default_num_drafts(&mut a, 5);
    assert_eq!(a.num_drafts, 3);
    let mut a = args();
    apply_model_default_num_drafts(&mut a, 0);
    assert_eq!(a.num_drafts, 1);
}
