//! Messages as the template sees them.

use spark_server::api::chat::msg_entry::{
    accept_images, build_msg_entries, duplicate_error_masks, error_streaks,
    is_vacuous_system_content, read_directory, tally_tool_calls, BuildOut, DecodedImage, Observations,
    ToolResult,
};
use spark_server::ir::message::{ContentPart, ImageData, ImageSource, Message, Role};
use std::collections::hash_map::DefaultHasher;
use std::collections::HashSet;
use std::hash::{Hash, Hasher};

/// The distinct four-word shingles of a text, by hash.
fn shingles(t: &str) -> Vec<u64> {
    let words: Vec<&str> = t.split_whitespace().collect();
    let set: HashSet<u64> = words
        .windows(4)
        .map(|w| {
            let mut h = DefaultHasher::new();
            w.hash(&mut h);
            h.finish()
        })
        .collect();
    set.into_iter().collect()
}

fn looks_like_error(t: &str) -> bool {
    t.trim_start().starts_with("Error")
}

fn masks_of(results: &[(usize, String)]) -> Vec<(usize, String)> {
    let results: Vec<ToolResult> = results
        .iter()
        .map(|(i, t)| ToolResult {
            index: *i,
            text: t.chars().collect(),
            shingles: shingles(t.trim()),
            is_error: looks_like_error(t),
        })
        .collect();
    duplicate_error_masks(&results)
}

fn observe(msgs: &[Message]) -> Observations {
    let texts: Vec<String> = msgs.iter().map(|m| m.text()).collect();
    Observations {
        errors: texts.iter().map(|t| looks_like_error(t)).collect(),
        hinted: texts.clone(),
        shingles: texts.iter().map(|t| shingles(t.trim())).collect(),
        wander_hint: None,
    }
}

fn build(msgs: &[Message], tools_active: bool) -> Result<BuildOut, String> {
    let o = observe(msgs);
    build_msg_entries(false, &msgs.to_vec(), tools_active, false, true, &o)
}

fn assert_bad_request(msgs: &[Message], tools_active: bool, why: &str) {
    match build(msgs, tools_active) {
        Ok(_) => panic!("expected a refusal, got Ok"),
        Err(reason) => assert!(reason.contains(why), "{reason}"),
    }
}

fn text(role: Role, t: &str) -> Message {
    Message {
        role,
        content: vec![ContentPart::Text(t.into())],
        tool_calls: Vec::new(),
        tool_call_id: None,
        name: None,
        reasoning: None,
        tool_error: false,
    }
}

fn image(role: Role) -> Message {
    Message {
        role,
        content: vec![
            ContentPart::Image(ImageSource {
                data: ImageData::Base64("data:image/png;base64,AAA".into()),
            }),
            ContentPart::Text("result".into()),
        ],
        tool_calls: Vec::new(),
        tool_call_id: Some("c1".into()),
        name: None,
        reasoning: None,
        tool_error: false,
    }
}

#[test]
fn text_only_builds_without_vision_config() {
    let msgs = vec![text(Role::User, "hello")];
    let out = build(&msgs, false).expect("text-only ok");
    assert_eq!(out.messages.len(), 1);
    assert_eq!(out.messages[0].image_count, 0);
}

#[test]
fn user_image_without_vision_config_is_rejected() {
    // Previously: silently dropped (200). Now: fail fast.
    assert_bad_request(
        &[text(Role::User, "hi"), image(Role::User)],
        false,
        "does not accept image input",
    );
}

#[test]
fn tool_result_image_is_collected_and_rejected_without_vision() {
    // Proves the tool branch now COUNTS + COLLECTS images (it used to
    // hardcode image_count: 0 and `continue` before collection): the
    // fail-fast only fires when an image was actually collected.
    assert_bad_request(
        &[text(Role::User, "look"), image(Role::Tool)],
        true,
        "does not accept image input",
    );
}

#[test]
fn developer_role_normalized_to_system_at_build() {
    // Was previously mapped only at JSON render time, so `developer`
    // messages bypassed the cwd-hint / vacuous-system / CWD-injection
    // scans that string-compare on "system".
    let msgs = vec![text(Role::Other("developer".into()), "be terse")];
    let out = build(&msgs, false).expect("ok");
    assert_eq!(out.messages[0].role, "system");

    // Other unknown roles still pass through verbatim for the
    // template to handle.
    let msgs = vec![text(Role::Other("critic".into()), "hm")];
    let out = build(&msgs, false).expect("ok");
    assert_eq!(out.messages[0].role, "critic");
}

#[test]
fn remote_url_image_rejected_with_clear_reason() {
    // A https URL used to be mislabeled as base64 and die later in
    // the vision preprocessor with "base64 decode failed". It must
    // now be rejected up front with the real reason — even when the
    // model HAS no vision config (the URL check fires first, at
    // collection time).
    let url_msg = Message {
        role: Role::User,
        content: vec![ContentPart::Image(ImageSource {
            data: ImageData::Url("https://example.com/cat.png".into()),
        })],
        tool_calls: Vec::new(),
        tool_call_id: None,
        name: None,
        reasoning: None,
        tool_error: false,
    };
    assert_bad_request(&[url_msg], false, "https://example.com/cat.png");
}

#[test]
fn exact_duplicate_errors_mask_older_keep_newest() {
    // Identical error text repeated.
    let err = "Error: BadResource: FileSystem.readFile (/home/nologik)";
    let results = vec![
        (2, err.to_string()),
        (5, format!("  {err}\n")), // trim-equal counts as duplicate
        (9, err.to_string()),
    ];
    let masks = masks_of(&results);
    assert_eq!(
        masks,
        vec![
            (2, "[same error as below, attempt 1 of 3]".to_string()),
            (5, "[same error as below, attempt 2 of 3]".to_string()),
        ],
        "older duplicates masked, newest (idx 9) untouched"
    );
}

#[test]
fn non_error_duplicates_untouched() {
    let ok = "src\nCargo.toml\nREADME.md";
    let results = vec![
        (1, ok.to_string()),
        (3, ok.to_string()),
        (7, ok.to_string()),
    ];
    assert!(
        masks_of(&results).is_empty(),
        "identical SUCCESS observations are legitimate — never masked"
    );
}

#[test]
fn repeated_results_in_a_conversation() {
    let ok = "src\nCargo.toml\nREADME.md";
    let msgs = vec![text(Role::Tool, ok), text(Role::Tool, ok), text(Role::Tool, ok)];
    let out = build(&msgs, true).unwrap();
    assert!(out.messages.iter().all(|m| m.content == ok));
    let err = "Error: no such file";
    let msgs = vec![text(Role::Tool, err), text(Role::Tool, ok), text(Role::Tool, err)];
    let out = build(&msgs, true).unwrap();
    assert_eq!(out.messages[0].content, "[same error as below, attempt 1 of 2]");
    assert_eq!(out.messages[1].content, ok);
    assert_eq!(out.messages[2].content, err);
}

#[test]
fn distinct_errors_untouched() {
    let results = vec![
        (1, "Error: ENOENT no such file /a/b".to_string()),
        (
            4,
            "Error: Permission denied writing /etc/passwd".to_string(),
        ),
    ];
    assert!(masks_of(&results).is_empty());
}

#[test]
fn near_duplicate_errors_group_via_jaccard() {
    // Long errors differing in one trailing token: Jaccard over
    // 4-gram shingles lands just above 0.9 at ~90 tokens.
    let body: Vec<String> = (0..90).map(|i| format!("frame{i}")).collect();
    let base = format!("Error: {}", body.join(" "));
    let mut variant_body = body.clone();
    *variant_body.last_mut().unwrap() = "different".to_string();
    let variant = format!("Error: {}", variant_body.join(" "));
    let results = vec![(0, base), (2, variant)];
    let masks = masks_of(&results);
    assert_eq!(
        masks,
        vec![(0, "[same error as below, attempt 1 of 2]".to_string())]
    );
}

#[test]
fn single_error_never_masked() {
    let results = vec![(0, "Error: something failed".to_string())];
    assert!(masks_of(&results).is_empty());
}

#[test]
fn empty_or_whitespace_is_vacuous() {
    assert!(is_vacuous_system_content(""));
    assert!(is_vacuous_system_content("   \n\t  "));
}

#[test]
fn open_webui_empty_context_residue_is_vacuous() {
    // A client's wrapper with nothing in it.
    assert!(is_vacuous_system_content("User Context:\n\n"));
    assert!(is_vacuous_system_content("Context:"));
    assert!(is_vacuous_system_content("  System:  "));
}

#[test]
fn substantive_prompt_is_not_vacuous() {
    assert!(!is_vacuous_system_content(
        "User Context:\nThe user is a senior Rust engineer."
    ));
    assert!(!is_vacuous_system_content("You are a helpful assistant."));
    assert!(!is_vacuous_system_content("Always answer in French."));
    // Label-like but with a real payload after the colon.
    assert!(!is_vacuous_system_content("Role: expert chess coach"));
    // Long single line ending in ':' is unusual prose, not a bare
    // header — keep it (avoid false-strip).
    assert!(!is_vacuous_system_content(
        "Summarize the following transcript and then ask the user this:"
    ));
}

#[test]
fn repeated_errors_are_masked_in_the_entries() {
    let msgs = vec![
        text(Role::Tool, "Error: boom"),
        text(Role::User, "again"),
        text(Role::Tool, "Error: boom"),
    ];
    let out = build(&msgs, true).expect("ok");
    assert_eq!(out.messages[0].content, "[same error as below, attempt 1 of 2]");
    assert_eq!(out.messages[2].content, "Error: boom");
}

#[test]
fn streaks_of_errors_are_counted() {
    let msgs = vec![
        text(Role::Tool, "Error: a"),
        text(Role::Tool, "Error: b"),
        text(Role::Tool, "fine"),
        text(Role::Tool, "Error: c"),
    ];
    assert_eq!(
        error_streaks(&msgs, true, &vec![true, true, false, true]),
        vec![1, 2, 0, 1]
    );
}

#[test]
fn tool_calls_are_tallied() {
    let msgs = vec![text(Role::User, "hi")];
    assert_eq!(tally_tool_calls(&msgs, &vec![vec![]]), Some((0, 0)));
}

#[test]
fn the_first_undecodable_image_is_reported() {
    let good = || DecodedImage { pixels: 1u8, grid_h: 2, grid_w: 2, pad_count: 1 };
    assert_eq!(accept_images(vec![Ok(good()), Ok(good())]).unwrap().len(), 2);
    let e = accept_images(vec![Ok(good()), Err("bad magic".to_string()), Err("x".to_string())]);
    match e {
        Ok(_) => panic!("expected an error"),
        Err(m) => assert_eq!(m, "Image decode error: bad magic"),
    }
}

#[test]
fn the_working_directory_is_found() {
    let line = |s: &str| -> Option<String> {
        read_directory(&s.chars().collect(), &s.to_lowercase().chars().collect())
    };
    assert_eq!(line("Working Directory: `/home/me`").as_deref(), Some("/home/me"));
    assert_eq!(line("cwd: \"/a b\"").as_deref(), Some("/a b"));
    assert_eq!(line("working_directory /x"), None);
    assert_eq!(line("CWD:  "), None);
    assert_eq!(line("directory: /x"), None);
}

#[test]
fn the_working_directory_reaches_the_model() {
    let msgs = vec![
        text(Role::System, "You are a helper.\nWorking directory: /srv/app"),
        text(Role::User, "hi"),
    ];
    let out = build(&msgs, true).expect("ok");
    assert_eq!(out.cwd_hint.as_deref(), Some("/srv/app"));
    assert!(out.messages[0]
        .content
        .ends_with("\n<environment>\nworking_directory: /srv/app\n</environment>"));
    let out = build(&msgs, false).expect("ok");
    assert!(!out.messages[0].content.contains("<environment>"));
}

#[test]
fn a_vacuous_system_message_is_dropped() {
    let msgs = vec![text(Role::System, "User Context:\n\n"), text(Role::User, "hi")];
    let out = build(&msgs, false).expect("ok");
    assert_eq!(out.messages.len(), 1);
    assert_eq!(out.messages[0].role, "user");
}

#[test]
fn a_nudge_goes_to_the_last_tool_answer() {
    let msgs = vec![
        text(Role::Tool, "one"),
        text(Role::Tool, "two"),
        text(Role::User, "go on"),
    ];
    let mut o = observe(&msgs);
    o.wander_hint = Some(" [write the file]".into());
    let out = build_msg_entries(false, &msgs, true, false, true, &o).expect("ok");
    assert_eq!(out.messages[0].content, "one");
    assert_eq!(out.messages[1].content, "two [write the file]");
}
