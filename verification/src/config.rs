//! Parses Zellij plugin configuration into typed runtime settings.
//!
//! Zellij gives plugins a flat string map from KDL layout blocks or
//! `zellij plugin --configuration` flags. This module is the only place that knows those
//! string keys and fallback rules. Parsing never fails: a missing value falls back to its
//! default.

use vstd::prelude::*;
use crate::text_map::{TextMap, find};

verus! {

/// The compact template the plugin renders when the layout gives none.
pub const DEFAULT_TEMPLATE: &'static str = "\n{% if sessions | length == 0 -%}\n  0 Agents\n{% else -%}\n{% for group in groups %}\n{{ group.tab_name }} (#{{ group.tab_id }})\n{% for session in group.sessions -%}\n  {{ session.pane }} {{ session.state }} {{ session.model }} {{ session.cwd }}\n{% endfor -%}\n\n{% endfor %}\n{% endif -%}\n";

/// Complete typed configuration for the plugin.
#[derive(Clone, Debug, Eq, PartialEq)]
pub struct PluginConfig {
    pub render: RenderConfig,
}

/// Rendering-specific configuration.
#[derive(Clone, Debug, Eq, PartialEq)]
pub struct RenderConfig {
    pub title: String,
    pub empty_message: String,
    pub template: String,
    pub template_dir: Option<String>,
    pub template_name: String,
}

/// The configured value for `key`, or `default` when the key is absent.
pub open spec fn setting_or(config: Seq<(Seq<char>, String)>, key: Seq<char>, default: Seq<char>) -> Seq<
    char,
> {
    match find(config, key) {
        Some(v) => v@,
        None => default,
    }
}

/// The configured value for `key`, if any.
pub open spec fn setting(config: Seq<(Seq<char>, String)>, key: Seq<char>) -> Option<Seq<char>> {
    match find(config, key) {
        Some(v) => Some(v@),
        None => None,
    }
}

/// What `RenderConfig::parse` reads from a configuration map.
pub open spec fn parsed_render(config: Seq<(Seq<char>, String)>, r: RenderConfig) -> bool {
    &&& r.title@ == setting_or(config, "title"@, "zellij-agent"@)
    &&& r.empty_message@ == setting_or(config, "empty_message"@, "waiting for pi extension reports"@)
    &&& r.template@ == setting_or(config, "template"@, DEFAULT_TEMPLATE@)
    &&& match r.template_dir {
        Some(d) => setting(config, "template_dir"@) == Some(d@),
        None => setting(config, "template_dir"@) is None,
    }
    &&& r.template_name@ == setting_or(config, "template_name"@, "main.j2"@)
}

fn value_or(config: &TextMap<String>, key: &str, default: &str) -> (r: String)
    requires
        config.wf(),
    ensures
        r@ == setting_or(config@, key@, default@),
{
    match config.get(key) {
        Some(v) => v.clone(),
        None => default.to_owned(),
    }
}

impl RenderConfig {
    /// Labels and template used by the default compact status UI.
    pub fn defaults() -> (r: Self)
        ensures
            r.title@ == "zellij-agent"@,
            r.empty_message@ == "waiting for pi extension reports"@,
            r.template@ == DEFAULT_TEMPLATE@,
            r.template_dir is None,
            r.template_name@ == "main.j2"@,
    {
        RenderConfig {
            title: "zellij-agent".to_owned(),
            empty_message: "waiting for pi extension reports".to_owned(),
            template: DEFAULT_TEMPLATE.to_owned(),
            template_dir: None,
            template_name: "main.j2".to_owned(),
        }
    }

    /// Parses the keys used by rendering, each falling back to its default.
    pub fn parse(configuration: &TextMap<String>) -> (r: Self)
        requires
            configuration.wf(),
        ensures
            parsed_render(configuration@, r),
    {
        RenderConfig {
            title: value_or(configuration, "title", "zellij-agent"),
            empty_message: value_or(
                configuration,
                "empty_message",
                "waiting for pi extension reports",
            ),
            template: value_or(configuration, "template", DEFAULT_TEMPLATE),
            template_dir: match configuration.get("template_dir") {
                Some(d) => Some(d.clone()),
                None => None,
            },
            template_name: value_or(configuration, "template_name", "main.j2"),
        }
    }
}

impl Default for RenderConfig {
    fn default() -> (r: Self)
        ensures
            r.title@ == "zellij-agent"@,
            r.empty_message@ == "waiting for pi extension reports"@,
            r.template@ == DEFAULT_TEMPLATE@,
            r.template_dir is None,
            r.template_name@ == "main.j2"@,
    {
        RenderConfig::defaults()
    }
}

impl PluginConfig {
    /// Converts Zellij's flat string configuration into typed plugin settings.
    pub fn parse(configuration: &TextMap<String>) -> (r: Self)
        requires
            configuration.wf(),
        ensures
            parsed_render(configuration@, r.render),
    {
        PluginConfig { render: RenderConfig::parse(configuration) }
    }
}

impl Default for PluginConfig {
    fn default() -> (r: Self)
        ensures
            r.render.title@ == "zellij-agent"@,
            r.render.empty_message@ == "waiting for pi extension reports"@,
            r.render.template@ == DEFAULT_TEMPLATE@,
            r.render.template_dir is None,
            r.render.template_name@ == "main.j2"@,
    {
        PluginConfig { render: RenderConfig::defaults() }
    }
}

} // verus!
