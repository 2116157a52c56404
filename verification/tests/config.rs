use std::path::PathBuf;

use bbn::command::build_plan;
use bbn::config::Config;

#[test]
fn config_test() {
    let base = PathBuf::from("journal");
    let data_dir = base.join("data");
    let hatena_blog_data_file = base.join("hatena_blog.db");
    let link_completion_rules_file = base.join("link_completion_rules.json");
    let out_dir = base.join("out");

    let config = Config::new(data_dir.clone(), hatena_blog_data_file.clone(), None, None);
    assert_eq!(config.data_dir(), data_dir.as_path());
    assert_eq!(
        config.hatena_blog_data_file(),
        hatena_blog_data_file.as_path()
    );
    assert_eq!(config.link_completion_rules_file(), None);
    assert_eq!(config.out_dir(), None);
    assert_eq!(config.clone(), config);

    let config = Config::new(
        data_dir.clone(),
        hatena_blog_data_file.clone(),
        Some(link_completion_rules_file.clone()),
        Some(out_dir.clone()),
    );
    assert_eq!(config.data_dir(), data_dir.as_path());
    assert_eq!(
        config.hatena_blog_data_file(),
        hatena_blog_data_file.as_path()
    );
    assert_eq!(
        config.link_completion_rules_file(),
        Some(link_completion_rules_file.as_path())
    );
    assert_eq!(config.out_dir(), Some(out_dir.as_path()));
    assert_eq!(config.clone(), config);
}

#[test]
fn a_build_does_what_was_asked_for() {
    let plan = build_plan(false, false, true, true);
    assert!(plan.run_json && plan.run_html && !plan.need_config);
    let plan = build_plan(true, false, true, true);
    assert!(plan.run_json && !plan.run_html && !plan.need_config);
    let plan = build_plan(false, true, false, true);
    assert!(!plan.run_json && plan.run_html && !plan.need_config);
    let plan = build_plan(true, true, false, true);
    assert!(plan.run_json && plan.run_html && plan.need_config);
    let plan = build_plan(false, true, true, false);
    assert!(!plan.run_json && plan.run_html && plan.need_config);
}
