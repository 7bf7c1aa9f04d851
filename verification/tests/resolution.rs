use porteurbars::context::{answer_value, prompts, resolve};
use porteurbars::Template;

fn pairs(ps: &[(&str, &str)]) -> Vec<(String, String)> {
    ps.iter().map(|(k, v)| (k.to_string(), v.to_string())).collect()
}

#[test]
fn accept_all_yields_defaults_verbatim() {
    let defaults = pairs(&[("name", "widget"), ("port", "8080")]);
    let env = pairs(&[("name", "from-env")]);
    let answers: Vec<String> = vec!["ignored".to_string()];
    let ctx = resolve(&defaults, true, &env, &answers);
    assert_eq!(ctx.pairs(), &pairs(&[("name", "widget"), ("port", "8080")]));
}

#[test]
fn accept_all_ignores_environment_and_answers() {
    let defaults = pairs(&[("a", "1"), ("b", "2")]);
    let ctx1 = resolve(&defaults, true, &pairs(&[("a", "x")]), &vec!["y".to_string()]);
    let ctx2 = resolve(&defaults, true, &pairs(&[]), &vec![]);
    assert_eq!(ctx1.pairs(), ctx2.pairs());
}

#[test]
fn environment_override_wins_without_prompt() {
    let defaults = pairs(&[("name", "widget"), ("port", "8080")]);
    let env = pairs(&[("name", "  spaced env value  ")]);
    // only "port" reaches the operator
    let asked = prompts(&defaults, &env);
    assert_eq!(asked, pairs(&[("port", "8080")]));
    // and the override is taken verbatim, untrimmed
    let ctx = resolve(&defaults, false, &env, &vec!["9090".to_string()]);
    assert_eq!(
        ctx.pairs(),
        &pairs(&[("name", "  spaced env value  "), ("port", "9090")])
    );
}

#[test]
fn empty_answer_falls_back_to_default() {
    let defaults = pairs(&[("name", "widget")]);
    let ctx = resolve(&defaults, false, &pairs(&[]), &vec!["   ".to_string()]);
    assert_eq!(ctx.pairs(), &pairs(&[("name", "widget")]));
}

#[test]
fn answers_are_trimmed() {
    let defaults = pairs(&[("name", "widget")]);
    let ctx = resolve(&defaults, false, &pairs(&[]), &vec![" gadget \n".to_string()]);
    assert_eq!(ctx.pairs(), &pairs(&[("name", "gadget")]));
}

#[test]
fn duplicate_name_is_resolved_once_first_wins() {
    let defaults = pairs(&[("a", "1"), ("a", "2")]);
    let asked = prompts(&defaults, &pairs(&[]));
    assert_eq!(asked, pairs(&[("a", "1")]));
    let ctx = resolve(&defaults, false, &pairs(&[]), &vec!["".to_string()]);
    assert_eq!(ctx.pairs(), &pairs(&[("a", "1")]));
}

#[test]
fn lookup_finds_resolved_values() {
    let defaults = pairs(&[("name", "widget")]);
    let ctx = resolve(&defaults, true, &pairs(&[]), &vec![]);
    assert_eq!(ctx.lookup("name"), Some(&"widget".to_string()));
    assert_eq!(ctx.lookup("absent"), None);
}

#[test]
fn answer_value_trims_or_defaults() {
    assert_eq!(answer_value("dflt", ""), "dflt");
    assert_eq!(answer_value("dflt", " \t "), "dflt");
    assert_eq!(answer_value("dflt", " typed \n"), "typed");
}

#[test]
fn template_context_matches_resolve() {
    let tpl = Template::new("/tmp/somewhere".to_string());
    let defaults = pairs(&[("name", "widget")]);
    let ctx = tpl.context(&defaults, true, &pairs(&[]), &vec![]);
    assert_eq!(ctx.pairs(), &pairs(&[("name", "widget")]));
    assert_eq!(tpl.path, "/tmp/somewhere");
}
