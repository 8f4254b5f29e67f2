use zellij_agent_threads::config::{PluginConfig, RenderConfig, DEFAULT_TEMPLATE};
use zellij_agent_threads::text_map::TextMap;

fn map(pairs: &[(&str, &str)]) -> TextMap<String> {
    let mut m = TextMap::new();
    for (k, v) in pairs {
        m.insert(k.to_string(), v.to_string());
    }
    m
}

#[test]
fn parses_known_config_values() {
    let config = PluginConfig::parse(&map(&[
        ("title", "agents"),
        ("empty_message", "none"),
        ("template", "{{ status }}"),
    ]));

    assert_eq!(config.render.title, "agents");
    assert_eq!(config.render.empty_message, "none");
    assert_eq!(config.render.template, "{{ status }}");
    assert_eq!(config.render.template_dir, None);
    assert_eq!(config.render.template_name, "main.j2");
}

#[test]
fn parses_template_loader_config() {
    let config = PluginConfig::parse(&map(&[("template_dir", "/tmp/templates"), ("template_name", "agent.j2")]));

    assert_eq!(config.render.template_dir.as_deref(), Some("/tmp/templates"));
    assert_eq!(config.render.template_name, "agent.j2");
}

#[test]
fn empty_configuration_gives_defaults() {
    let config = PluginConfig::parse(&TextMap::new());
    let defaults = RenderConfig::defaults();
    assert_eq!(config.render, defaults);
    assert_eq!(config.render.title, "zellij-agent");
    assert_eq!(config.render.empty_message, "waiting for pi extension reports");
    assert_eq!(config.render.template, DEFAULT_TEMPLATE);
    assert_eq!(PluginConfig::default().render, defaults);
}

#[test]
fn text_map_keeps_keys_sorted_and_replaces_values() {
    let mut m = map(&[("b", "1"), ("a", "2"), ("c", "3")]);
    m.insert("b".into(), "4".into());
    assert_eq!(m.len(), 3);
    assert_eq!(m.key_at(0), "a");
    assert_eq!(m.key_at(1), "b");
    assert_eq!(m.get("b").map(String::as_str), Some("4"));
    assert_eq!(m.remove("a").as_deref(), Some("2"));
    assert!(!m.contains_key("a"));
    assert_eq!(m.len(), 2);
}
