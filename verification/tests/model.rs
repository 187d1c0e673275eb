use openai_codex::model::{clamp_reasoning_effort, normalize_model_id, resolve_reasoning_effort};

#[test]
fn clamp_reasoning_effort_adjusts_known_models() {
    assert_eq!(
        clamp_reasoning_effort("gpt-5-codex", "xhigh"),
        "high".to_string()
    );
    assert_eq!(
        clamp_reasoning_effort("gpt-5-codex", "minimal"),
        "low".to_string()
    );
    assert_eq!(
        clamp_reasoning_effort("gpt-5-codex", "medium"),
        "medium".to_string()
    );
    assert_eq!(
        clamp_reasoning_effort("gpt-5.3-codex", "minimal"),
        "low".to_string()
    );
    assert_eq!(
        clamp_reasoning_effort("gpt-5.1", "xhigh"),
        "high".to_string()
    );
    assert_eq!(
        clamp_reasoning_effort("gpt-5-codex", "xhigh"),
        "high".to_string()
    );
    assert_eq!(
        clamp_reasoning_effort("gpt-5.1-codex-mini", "low"),
        "medium".to_string()
    );
    assert_eq!(
        clamp_reasoning_effort("gpt-5.1-codex-mini", "xhigh"),
        "high".to_string()
    );
    assert_eq!(
        clamp_reasoning_effort("gpt-5.3-codex", "xhigh"),
        "xhigh".to_string()
    );
}

#[test]
fn clamp_reasoning_effort_settles_at_once() {
    for model in ["gpt-5-codex", "openai/gpt-5-codex-mini", "gpt-5.2", "gpt-5.1-codex-mini", "o3"] {
        for effort in ["none", "minimal", "low", "medium", "high", "xhigh"] {
            let settled = clamp_reasoning_effort(model, effort);
            assert_eq!(clamp_reasoning_effort(model, &settled), settled);
            assert_eq!(clamp_reasoning_effort(normalize_model_id(model), effort), settled);
        }
    }
}

#[test]
fn codex_knows_three_efforts() {
    assert_eq!(clamp_reasoning_effort("openai/gpt-5-codex", "loud"), "high");
    assert_eq!(clamp_reasoning_effort("gpt-5-codex-max", "xhigh"), "high");
    assert_eq!(clamp_reasoning_effort("gpt-5-codex-max", "minimal"), "minimal");
}

#[test]
fn normalize_model_id_keeps_what_stands_behind_the_last_slash() {
    assert_eq!(normalize_model_id("gpt-5"), "gpt-5");
    assert_eq!(normalize_model_id("openai/codex/gpt-5"), "gpt-5");
    assert_eq!(normalize_model_id("openai/"), "");
    assert_eq!(normalize_model_id(""), "");
}

#[test]
fn resolve_reasoning_effort_prefers_configured_override() {
    assert_eq!(
        resolve_reasoning_effort("gpt-5-codex", Some("high"), Some("low")),
        "high".to_string()
    );
}

#[test]
fn resolve_reasoning_effort_uses_legacy_env_when_unconfigured() {
    assert_eq!(
        resolve_reasoning_effort("gpt-5-codex", None, Some("minimal")),
        "low".to_string()
    );
}

#[test]
fn resolve_reasoning_effort_folds_case() {
    assert_eq!(resolve_reasoning_effort("gpt-5.3-codex", Some(" MiniMal "), None), "low");
    assert_eq!(resolve_reasoning_effort("gpt-5.3-codex", Some("LOW"), None), "low");
}

#[test]
fn resolve_reasoning_effort_asks_for_the_most_where_nothing_is_named() {
    assert_eq!(resolve_reasoning_effort("gpt-5.3-codex", None, None), "xhigh");
    assert_eq!(resolve_reasoning_effort("gpt-5.3-codex", Some("  "), Some("low")), "xhigh");
    assert_eq!(resolve_reasoning_effort("gpt-5.1", None, Some("")), "high");
}
