use llmman::shortnames::{config_paths, has_host, load_aliases, resolve};
use llmman::string_map::StringMap;

fn map(pairs: &[(&str, &str)]) -> StringMap {
    StringMap::from_pairs(pairs.iter().map(|(k, v)| (k.to_string(), v.to_string())).collect())
}

fn readme_names() -> StringMap {
    map(&[
        ("qwen3.5:0.8b", "hf.co/unsloth/Qwen3.5-0.8B-GGUF"),
        ("gemma4:e4b-it-q4_K_M", "hf.co/unsloth/gemma-4-E4B-it-GGUF:Q4_K_M"),
        ("granite4.1:8b-q4_K_M", "hf.co/unsloth/granite-4.1-8b-GGUF:Q4_K_M"),
    ])
}

#[test]
fn short_names_stand_for_full_references() {
    let names = readme_names();
    assert_eq!(resolve("qwen3.5:0.8b", &names), "hf.co/unsloth/Qwen3.5-0.8B-GGUF");
    assert_eq!(
        resolve("gemma4:e4b-it-q4_K_M", &names),
        "hf.co/unsloth/gemma-4-E4B-it-GGUF:Q4_K_M"
    );
    assert_eq!(
        resolve("granite4.1:8b-q4_K_M", &names),
        "hf.co/unsloth/granite-4.1-8b-GGUF:Q4_K_M"
    );
}

#[test]
fn references_with_a_host_stay() {
    let names = StringMap::new();
    for r in [
        "registry.example.com/mymodel:v1",
        "hf.co/unsloth/Qwen3.5-0.8B-GGUF:Q4_K_M",
        "localhost/model",
        "LocalHost/model",
        "a.b",
    ] {
        assert!(has_host(r));
        assert_eq!(resolve(r, &names), r);
    }
}

#[test]
fn references_without_a_host_go_to_the_default() {
    let names = StringMap::new();
    assert!(!has_host("unsloth/model.gguf"));
    assert_eq!(resolve("unsloth/model.gguf", &names), "hf.co/unsloth/model.gguf");
    assert_eq!(resolve("model", &names), "hf.co/model");
    assert_eq!(resolve("", &names), "hf.co/");
    assert_eq!(resolve("localhost:5000/model", &names), "hf.co/localhost:5000/model");
}

#[test]
fn resolving_twice_is_resolving_once() {
    let names = readme_names();
    for r in ["qwen3.5:0.8b", "plain", "registry.example.com/x"] {
        let once = resolve(r, &names);
        assert_eq!(resolve(&once, &names), once);
    }
}

#[test]
fn later_files_override_earlier_ones() {
    let merged = load_aliases(&vec![
        map(&[("a", "1"), ("b", "1")]),
        map(&[("b", "2"), ("c", "2")]),
        map(&[("c", "3")]),
    ]);
    assert_eq!(merged.get("a"), Some("1"));
    assert_eq!(merged.get("b"), Some("2"));
    assert_eq!(merged.get("c"), Some("3"));
    assert_eq!(merged.get("d"), None);
}

#[test]
fn configuration_files_come_in_ascending_priority() {
    assert_eq!(
        config_paths(Some("/opt/llmman/bin"), Some("/home/u/.config"), Some("/tmp/names")),
        vec![
            "/usr/share/llmman/shortnames.conf",
            "/etc/llmman/shortnames.conf",
            "/opt/llmman/bin/../share/llmman/shortnames.conf",
            "/opt/llmman/bin/shortnames.conf",
            "/home/u/.config/llmman/shortnames.conf",
            "/tmp/names",
        ]
    );
    assert_eq!(
        config_paths(None, None, Some("")),
        vec!["/usr/share/llmman/shortnames.conf", "/etc/llmman/shortnames.conf"]
    );
}

#[test]
fn string_maps_keep_one_value_per_key() {
    let mut m = StringMap::new();
    assert_eq!(m.get("k"), None);
    m.insert("k".to_string(), "1".to_string());
    m.insert("l".to_string(), "2".to_string());
    m.insert("k".to_string(), "3".to_string());
    assert_eq!(m.get("k"), Some("3"));
    assert_eq!(
        m.clone().pairs(),
        vec![("k".to_string(), "3".to_string()), ("l".to_string(), "2".to_string())]
    );
}
