use handlebars::Handlebars;
use porteurbars::context::resolve;
use porteurbars::template::{
    defaults_file_name, join_path, plan_entry_path, relative_to_root, render_text,
    template_dir_name,
};
use porteurbars::Error;

fn pairs(ps: &[(&str, &str)]) -> Vec<(String, String)> {
    ps.iter().map(|(k, v)| (k.to_string(), v.to_string())).collect()
}

#[test]
fn path_template_renders_against_context() {
    let hbs = Handlebars::new();
    let ctx = resolve(&pairs(&[("name", "widget")]), true, &pairs(&[]), &vec![]);
    let rendered = render_text(&hbs, &ctx, "{{name}}/file.txt").unwrap();
    assert_eq!(rendered, "widget/file.txt");
}

#[test]
fn entry_path_lands_under_the_target_root() {
    let hbs = Handlebars::new();
    let ctx = resolve(&pairs(&[("name", "widget")]), true, &pairs(&[]), &vec![]);
    let (rel, target) = plan_entry_path(
        &hbs,
        &ctx,
        "/scratch/tpl/template/{{name}}/file.txt",
        "/scratch/tpl/template/",
        "out",
    )
    .unwrap();
    assert_eq!(rel, "widget/file.txt");
    assert_eq!(target, "out/widget/file.txt");
}

#[test]
fn content_renders_against_context() {
    let hbs = Handlebars::new();
    let ctx = resolve(&pairs(&[("who", "you")]), true, &pairs(&[]), &vec![]);
    let rendered = render_text(&hbs, &ctx, "Hello, {{who}}!").unwrap();
    assert_eq!(rendered, "Hello, you!");
}

#[test]
fn rejected_template_names_itself() {
    let hbs = Handlebars::new();
    let ctx = resolve(&pairs(&[]), true, &pairs(&[]), &vec![]);
    let err = render_text(&hbs, &ctx, "{{#if}}broken").unwrap_err();
    match err {
        Error::Render { template, detail } => {
            assert_eq!(template, "{{#if}}broken");
            assert!(!detail.is_empty());
        }
        other => panic!("unexpected error: {:?}", other),
    }
}

#[test]
fn relative_path_strips_the_scratch_prefix() {
    assert_eq!(relative_to_root("/scratch/template/a/b", "/scratch/template/"), "a/b");
    assert_eq!(relative_to_root("untouched", "/scratch/"), "untouched");
    assert_eq!(relative_to_root("ababx", "ab"), "x");
}

#[test]
fn join_path_handles_separators() {
    assert_eq!(join_path("out", "a/b"), "out/a/b");
    assert_eq!(join_path("out/", "a"), "out/a");
    assert_eq!(join_path("", "a"), "a");
    assert_eq!(join_path("out", "/abs"), "/abs");
}

#[test]
fn registry_helpers_reach_the_render() {
    // a registry with one helper transform, as the render collaborator
    // would be set up
    let mut hbs = Handlebars::new();
    hbs.register_helper(
        "upper",
        Box::new(
            |h: &handlebars::Helper,
             _: &Handlebars,
             _: &handlebars::Context,
             _: &mut handlebars::RenderContext,
             out: &mut dyn handlebars::Output|
             -> handlebars::HelperResult {
                let value = h.param(0).and_then(|v| v.value().as_str()).unwrap_or("");
                out.write(&value.to_uppercase())?;
                Ok(())
            },
        ),
    );
    let ctx = resolve(&pairs(&[("name", "porteurbars")]), true, &pairs(&[]), &vec![]);
    let rendered = render_text(&hbs, &ctx, "Hello, {{upper name}}").unwrap();
    assert_eq!(rendered, "Hello, PORTEURBARS");
}

#[test]
fn well_known_names_are_fixed() {
    assert_eq!(template_dir_name(), "template");
    assert_eq!(defaults_file_name(), "default.env");
}
