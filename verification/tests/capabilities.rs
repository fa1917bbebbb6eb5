use gen3d_ai::openai::capabilities::{
    capabilities_cache_key_valid, should_read_capabilities_cache,
    hydrate_session_capabilities_from_cache_path, normalize_loaded_capabilities_cache,
    normalize_openai_base_url, normalize_openai_model, persist_session_capabilities_if_changed,
    persist_session_capabilities_to_cache_path, Gen3dAiSessionState,
    OpenAiCapabilitiesCacheEntryV1, OpenAiCapabilitiesCacheV1, OpenAiCapabilityFlagsSnapshot,
    OPENAI_CAPABILITIES_CACHE_VERSION,
};

fn entry(url: &str, model: &str, v: Option<bool>) -> OpenAiCapabilitiesCacheEntryV1 {
    OpenAiCapabilitiesCacheEntryV1 {
        base_url: url.into(),
        model: model.into(),
        responses_supported: v,
        responses_stream_required: v,
        responses_continuation_supported: v,
        responses_background_supported: v,
        responses_structured_outputs_supported: v,
        chat_stream_required: v,
        chat_structured_outputs_supported: v,
    }
}

fn loaded_cache() -> OpenAiCapabilitiesCacheV1 {
    normalize_loaded_capabilities_cache(OpenAiCapabilitiesCacheV1 {
        version: OPENAI_CAPABILITIES_CACHE_VERSION,
        entries: vec![
            OpenAiCapabilitiesCacheEntryV1 {
                base_url: "https://example.invalid/v1/".into(),
                model: "gpt-a".into(),
                responses_supported: Some(true),
                responses_stream_required: Some(true),
                responses_continuation_supported: Some(false),
                responses_background_supported: Some(false),
                responses_structured_outputs_supported: Some(true),
                chat_stream_required: Some(true),
                chat_structured_outputs_supported: Some(true),
            },
            entry("https://example.invalid/v1", "gpt-b", Some(false)),
        ],
    })
}

#[test]
fn normalizes_base_url_and_model() {
    assert_eq!(normalize_openai_base_url("  https://x.invalid/v1///  "), "https://x.invalid/v1");
    assert_eq!(normalize_openai_base_url("/"), "");
    assert_eq!(normalize_openai_model("  gpt-a \n"), "gpt-a");
}

#[test]
fn loaded_cache_of_another_version_is_empty() {
    let c = normalize_loaded_capabilities_cache(OpenAiCapabilitiesCacheV1 {
        version: 7,
        entries: vec![entry("u", "m", Some(true))],
    });
    assert_eq!(c.version, OPENAI_CAPABILITIES_CACHE_VERSION);
    assert!(c.entries.is_empty());
}

#[test]
fn hydrates_capabilities_by_base_url_and_model_from_loaded_cache() {
    let cache = loaded_cache();
    let mut session = Gen3dAiSessionState::new();
    hydrate_session_capabilities_from_cache_path(&mut session, "https://example.invalid/v1", "gpt-a", &cache);
    assert_eq!(session.responses_supported, Some(true));
    assert_eq!(session.responses_stream_required, Some(true));
    assert_eq!(session.responses_continuation_supported, Some(false));
    assert_eq!(session.responses_background_supported, Some(false));
    assert_eq!(session.responses_structured_outputs_supported, Some(true));
    assert_eq!(session.chat_stream_required, Some(true));
    assert_eq!(session.chat_structured_outputs_supported, Some(true));

    let mut session2 = Gen3dAiSessionState::new();
    session2.responses_supported = Some(false);
    session2.responses_stream_required = Some(false);
    hydrate_session_capabilities_from_cache_path(&mut session2, "https://example.invalid/v1/", "gpt-a", &cache);
    assert_eq!(session2.responses_supported, Some(false));
    assert_eq!(session2.responses_stream_required, Some(false));
    assert_eq!(session2.responses_structured_outputs_supported, Some(true));
    assert_eq!(session2.chat_stream_required, Some(true));

    let mut session3 = Gen3dAiSessionState::new();
    hydrate_session_capabilities_from_cache_path(&mut session3, "https://example.invalid/v1", "gpt-b", &cache);
    assert_eq!(session3.responses_supported, Some(false));
    assert_eq!(session3.responses_stream_required, Some(false));
    assert_eq!(session3.responses_structured_outputs_supported, Some(false));
    assert_eq!(session3.chat_stream_required, Some(false));

    let mut session4 = Gen3dAiSessionState::new();
    hydrate_session_capabilities_from_cache_path(&mut session4, "  ", "gpt-a", &cache);
    assert_eq!(session4.responses_supported, None);
}

#[test]
fn persists_capabilities_merging_known_flags_in_loaded_cache() {
    let mut cache = normalize_loaded_capabilities_cache(OpenAiCapabilitiesCacheV1 {
        version: OPENAI_CAPABILITIES_CACHE_VERSION,
        entries: Vec::new(),
    });
    let mut session = Gen3dAiSessionState::new();
    session.responses_supported = Some(true);
    session.responses_stream_required = Some(true);
    session.responses_background_supported = Some(false);
    assert!(persist_session_capabilities_to_cache_path("https://example.invalid/v1/", "gpt-a", &session, &mut cache));
    assert_eq!(cache.entries.len(), 1);
    let e = &cache.entries[0];
    assert_eq!((e.base_url.as_str(), e.model.as_str()), ("https://example.invalid/v1", "gpt-a"));
    assert_eq!(e.responses_supported, Some(true));
    assert_eq!(e.responses_stream_required, Some(true));
    assert_eq!(e.responses_background_supported, Some(false));
    assert_eq!(e.chat_stream_required, None);

    let mut session2 = Gen3dAiSessionState::new();
    session2.responses_structured_outputs_supported = Some(false);
    assert!(persist_session_capabilities_to_cache_path("https://example.invalid/v1", "gpt-a", &session2, &mut cache));
    assert_eq!(cache.entries.len(), 1);
    let e2 = &cache.entries[0];
    assert_eq!(e2.responses_supported, Some(true));
    assert_eq!(e2.responses_stream_required, Some(true));
    assert_eq!(e2.responses_background_supported, Some(false));
    assert_eq!(e2.responses_structured_outputs_supported, Some(false));

    assert!(!persist_session_capabilities_to_cache_path("", "gpt-a", &session2, &mut cache));
    assert_eq!(cache.entries.len(), 1);
}

#[test]
fn persisted_flags_hydrate_a_fresh_session() {
    let mut cache = OpenAiCapabilitiesCacheV1 { version: OPENAI_CAPABILITIES_CACHE_VERSION, entries: Vec::new() };
    let mut session = Gen3dAiSessionState::new();
    session.chat_stream_required = Some(true);
    session.responses_supported = Some(false);
    persist_session_capabilities_to_cache_path(" https://a.invalid/ ", "m", &session, &mut cache);
    let mut fresh = Gen3dAiSessionState::new();
    hydrate_session_capabilities_from_cache_path(&mut fresh, "https://a.invalid", " m ", &cache);
    assert_eq!(OpenAiCapabilityFlagsSnapshot::from_session(&fresh), OpenAiCapabilityFlagsSnapshot::from_session(&session));
}

#[test]
fn persists_only_when_flags_changed() {
    let mut cache = OpenAiCapabilitiesCacheV1 { version: OPENAI_CAPABILITIES_CACHE_VERSION, entries: Vec::new() };
    let mut session = Gen3dAiSessionState::new();
    let before = OpenAiCapabilityFlagsSnapshot::from_session(&session);
    assert!(!persist_session_capabilities_if_changed("u", "m", before, &session, &mut cache));
    assert!(cache.entries.is_empty());
    session.chat_structured_outputs_supported = Some(true);
    assert!(persist_session_capabilities_if_changed("u", "m", before, &session, &mut cache));
    assert_eq!(cache.entries.len(), 1);
}

#[test]
fn cache_is_read_only_when_useful() {
    let mut session = Gen3dAiSessionState::new();
    assert!(should_read_capabilities_cache(&session, "https://a.invalid/", "m"));
    assert!(!should_read_capabilities_cache(&session, " / ", "m"));
    assert!(!capabilities_cache_key_valid("https://a.invalid", "  "));
    session.responses_supported = Some(true);
    session.responses_stream_required = Some(true);
    session.responses_continuation_supported = Some(true);
    session.responses_background_supported = Some(true);
    session.responses_structured_outputs_supported = Some(true);
    session.chat_stream_required = Some(true);
    session.chat_structured_outputs_supported = Some(false);
    assert!(!should_read_capabilities_cache(&session, "https://a.invalid", "m"));
}
