use porteurbars::conflict::{decide_file, decision_from_answer, Decision, FilePlan};
use porteurbars::diff::{conflict_diff, diff_to_string, Style};

#[test]
fn missing_target_is_created() {
    let plan = decide_file("rendered".to_string(), None, false);
    assert!(matches!(plan, FilePlan::Create { content } if content == "rendered"));
}

#[test]
fn identical_target_is_left_alone() {
    let current = "same bytes".to_string();
    let plan = decide_file("same bytes".to_string(), Some(&current), false);
    assert!(matches!(plan, FilePlan::Unchanged));
    // the suppress flag changes nothing on the fast path
    let plan = decide_file("same bytes".to_string(), Some(&current), true);
    assert!(matches!(plan, FilePlan::Unchanged));
}

#[test]
fn differing_target_asks_the_operator() {
    let current = "old".to_string();
    let plan = decide_file("new".to_string(), Some(&current), false);
    assert!(matches!(plan, FilePlan::AskOperator { proposed } if proposed == "new"));
}

#[test]
fn suppressed_prompts_keep_every_conflict() {
    let current = "old".to_string();
    let plan = decide_file("new".to_string(), Some(&current), true);
    assert!(matches!(plan, FilePlan::KeepExisting));
}

#[test]
fn empty_answer_keeps_the_existing_file() {
    assert_eq!(decision_from_answer(""), Decision::Keep);
    assert_eq!(decision_from_answer("\n"), Decision::Keep);
}

#[test]
fn only_an_explicit_r_replaces() {
    assert_eq!(decision_from_answer("r"), Decision::Overwrite);
    assert_eq!(decision_from_answer("R\n"), Decision::Overwrite);
    assert_eq!(decision_from_answer("  r  "), Decision::Overwrite);
    assert_eq!(decision_from_answer("yes"), Decision::Keep);
    assert_eq!(decision_from_answer("replace"), Decision::Keep);
    assert_eq!(decision_from_answer("rr"), Decision::Keep);
}

#[test]
fn diff_of_identical_content_is_all_plain() {
    let segs = conflict_diff("a", "a");
    assert_eq!(diff_to_string(&segs), " a\n");
    assert!(segs.iter().all(|s| s.style == Style::Plain));
}

#[test]
fn diff_of_changed_line_marks_both_sides() {
    let segs = conflict_diff("old", "new");
    assert_eq!(diff_to_string(&segs), "-old\n+new\n");
    assert!(segs.iter().any(|s| s.style == Style::Removed));
    assert!(segs.iter().any(|s| s.style == Style::AddedEmphasis));
}

#[test]
fn diff_keeps_common_lines_plain() {
    let segs = conflict_diff("keep\nold", "keep\nnew");
    let text = diff_to_string(&segs);
    assert_eq!(text, " keep\n-old\n+new\n");
}

#[test]
fn added_line_without_removal_is_bright() {
    let segs = conflict_diff("a", "a\nb");
    assert_eq!(diff_to_string(&segs), " a\n+b\n");
    assert!(segs.iter().any(|s| s.style == Style::AddedBright));
}
