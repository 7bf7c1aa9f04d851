//! The conflict decision logic: what to do with one target file, given the
//! freshly rendered content and what is already on disk.
//!
//! A missing target is written without questions. An identical target is
//! left alone without questions. A differing target is kept when prompts
//! are suppressed, and otherwise handed to the operator, whose answer must
//! be an explicit `r` (either case) to replace the file: any other answer,
//! and in particular an empty one, keeps the existing file.

use crate::chars::{trim_range, trim_spec, str_eq};
use vstd::prelude::*;

verus! {

/// The choice made for one conflicting file.
#[derive(Debug, PartialEq)]
pub enum Decision {
    /// Leave the existing file untouched.
    Keep,
    /// Truncate the existing file and write the rendered content.
    Overwrite,
}

/// What the applier must do for one file entry.
#[derive(Debug)]
pub enum FilePlan {
    /// Nothing exists at the target: write `content` as a new file.
    Create { content: String },
    /// The target already holds exactly the rendered content: no write, no
    /// question.
    Unchanged,
    /// The target differs but prompts are suppressed: keep it, silently.
    KeepExisting,
    /// The target differs: show a diff and ask the operator about
    /// `proposed`.
    AskOperator { proposed: String },
}

/// The shape of a file plan, with content as character sequences.
pub enum PlanShape {
    Create(Seq<char>),
    Unchanged,
    KeepExisting,
    AskOperator(Seq<char>),
}

impl View for FilePlan {
    type V = PlanShape;

    open spec fn view(&self) -> PlanShape {
        match self {
            FilePlan::Create { content } => PlanShape::Create(content@),
            FilePlan::Unchanged => PlanShape::Unchanged,
            FilePlan::KeepExisting => PlanShape::KeepExisting,
            FilePlan::AskOperator { proposed } => PlanShape::AskOperator(proposed@),
        }
    }
}

/// The plan for one file: create when nothing is there, do nothing when the
/// rendered content is already on disk, keep silently when prompts are
/// suppressed, otherwise ask.
pub open spec fn spec_plan(proposed: Seq<char>, existing: Option<Seq<char>>, keep: bool)
    -> PlanShape {
    match existing {
        None => PlanShape::Create(proposed),
        Some(cur) => if cur == proposed {
            PlanShape::Unchanged
        } else if keep {
            PlanShape::KeepExisting
        } else {
            PlanShape::AskOperator(proposed)
        },
    }
}

/// The view of an optional borrowed content string.
pub open spec fn opt_content(e: Option<&String>) -> Option<Seq<char>> {
    match e {
        None => None,
        Some(s) => Some(s@),
    }
}

/// Decides what to do with one file entry, from the rendered content, the
/// current content of the target if it exists, and the suppress-prompts
/// flag.
pub fn decide_file(proposed: String, existing: Option<&String>, keep: bool) -> (r: FilePlan)
    ensures
        r@ == spec_plan(proposed@, opt_content(existing), keep),
{
    match existing {
        None => FilePlan::Create { content: proposed },
        Some(cur) => {
            if str_eq(cur.as_str(), proposed.as_str()) {
                FilePlan::Unchanged
            } else if keep {
                FilePlan::KeepExisting
            } else {
                FilePlan::AskOperator { proposed }
            }
        },
    }
}

/// The decision an operator's answer stands for: only an explicit `r` or
/// `R`, after trimming, replaces the file; anything else keeps it.
pub open spec fn spec_decision(answer: Seq<char>) -> Decision {
    if trim_spec(answer) == seq!['r'] || trim_spec(answer) == seq!['R'] {
        Decision::Overwrite
    } else {
        Decision::Keep
    }
}

/// Reads the operator's answer to a conflict prompt. Empty input keeps the
/// existing file: the default is the non-destructive action.
pub fn decision_from_answer(answer: &str) -> (r: Decision)
    ensures
        r == spec_decision(answer@),
{
    let n: usize = answer.unicode_len();
    let (a, b) = trim_range(answer, 0, n);
    proof {
        assert(answer@.subrange(0, n as int) =~= answer@);
    }
    let ghost t = trim_spec(answer@);
    if a < b && b - a == 1 {
        let c = answer.get_char(a);
        proof {
            assert(t[0] == answer@[a as int]);
        }
        if c == 'r' || c == 'R' {
            proof {
                assert(t =~= seq![c]);
            }
            return Decision::Overwrite;
        }
        proof {
            assert(t != seq!['r'] && t != seq!['R']);
        }
        return Decision::Keep;
    }
    proof {
        assert(t.len() != 1);
        assert(seq!['r'].len() == 1 && seq!['R'].len() == 1);
    }
    Decision::Keep
}

/// Re-applying is idempotent at the decision level: when the rendered
/// content already sits at the target, the plan is `Unchanged` — no write,
/// no conflict, no question — whatever the suppress-prompts flag says.
pub proof fn lemma_reapply_unchanged(content: Seq<char>, keep: bool)
    ensures
        spec_plan(content, Some(content), keep) is Unchanged,
{
}

/// With prompts suppressed every conflict is kept: the plan for a differing
/// target is `KeepExisting`, and no input whatever produces a plan that
/// asks the operator.
pub proof fn lemma_suppressed_never_asks(proposed: Seq<char>, existing: Option<Seq<char>>)
    ensures
        !(spec_plan(proposed, existing, true) is AskOperator),
        (existing is Some && existing->0 != proposed) ==> spec_plan(
            proposed,
            existing,
            true,
        ) is KeepExisting,
{
}

} // verus!
