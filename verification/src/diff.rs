//! Renders the conflict diff shown to the operator: a line diff of the
//! current against the proposed content, where an added line directly after
//! a removed one is refined character by character so the changed span
//! stands out. The text and its styling are computed here; putting colors
//! on the styles is the terminal's business.

use vstd::prelude::*;

verus! {

/// One diff chunk, as the diff collaborator hands it out.
#[derive(Debug)]
enum Chunk {
    /// Text present in both contents.
    Same(String),
    /// Text only in the proposed content.
    Add(String),
    /// Text only in the current content.
    Rem(String),
}

/// The shape of a diff chunk, over character sequences.
pub enum ChunkShape {
    Same(Seq<char>),
    Add(Seq<char>),
    Rem(Seq<char>),
}

impl View for Chunk {
    type V = ChunkShape;

    closed spec fn view(&self) -> ChunkShape {
        match self {
            Chunk::Same(s) => ChunkShape::Same(s@),
            Chunk::Add(s) => ChunkShape::Add(s@),
            Chunk::Rem(s) => ChunkShape::Rem(s@),
        }
    }
}

/// The ordered diff chunks between two texts for a given separator: line
/// chunks for a `"\n"` separator, character chunks for an empty one. A
/// function of the two texts and the separator alone.
pub uninterp spec fn changeset_of(a: Seq<char>, b: Seq<char>, sep: Seq<char>) -> Seq<ChunkShape>;

/// The views of a sequence of chunks.
spec fn chunks_view(cs: Seq<Chunk>) -> Seq<ChunkShape> {
    cs.map(|i: int, c: Chunk| c@)
}

/// Relies on difference::Changeset::new: the ordered diff chunks between
/// `a` and `b` split at `sep`, which depend on those arguments alone.
#[verifier::external_body]
fn changeset(a: &str, b: &str, sep: &str) -> (r: Vec<Chunk>)
    ensures
        chunks_view(r@) == changeset_of(a@, b@, sep@),
{
    let cs = difference::Changeset::new(a, b, sep);
    let mut out = Vec::new();
    for d in cs.diffs {
        match d {
            difference::Difference::Same(s) => out.push(Chunk::Same(s)),
            difference::Difference::Add(s) => out.push(Chunk::Add(s)),
            difference::Difference::Rem(s) => out.push(Chunk::Rem(s)),
        }
    }
    out
}

/// How one run of diff text is to be shown.
#[derive(Debug, PartialEq, Clone, Copy)]
pub enum Style {
    /// An unchanged line, shown plain.
    Plain,
    /// A removed line.
    Removed,
    /// Added text next to removed text: the frame of a modified line.
    Added,
    /// A line that is added outright.
    AddedBright,
    /// The changed span within a modified line.
    AddedEmphasis,
}

/// One styled run of diff text.
#[derive(Debug)]
pub struct DiffSeg {
    pub style: Style,
    pub text: String,
}

impl View for DiffSeg {
    type V = (Style, Seq<char>);

    open spec fn view(&self) -> (Style, Seq<char>) {
        (self.style, self.text@)
    }
}

/// The views of a sequence of segments.
pub open spec fn segs_view(ss: Seq<DiffSeg>) -> Seq<(Style, Seq<char>)> {
    ss.map(|i: int, s: DiffSeg| s@)
}

/// The refinement of one modified line, from its character-level chunks:
/// kept characters framed as added text, new characters emphasised, removed
/// characters left out.
pub open spec fn inline_segs_from(cs: Seq<ChunkShape>, i: int) -> Seq<(Style, Seq<char>)>
    decreases cs.len() - i,
{
    if i < 0 || i >= cs.len() {
        Seq::empty()
    } else {
        let head = match cs[i] {
            ChunkShape::Same(z) => seq![(Style::Added, z)],
            ChunkShape::Add(z) => seq![(Style::AddedEmphasis, z)],
            ChunkShape::Rem(z) => Seq::<(Style, Seq<char>)>::empty(),
        };
        head + inline_segs_from(cs, i + 1)
    }
}

/// The styled segments for the line chunks `cs` from position `i` on: an
/// unchanged line plain, a removed line marked `-`, an added line marked
/// `+` — refined against the removed line just before it, when there is
/// one.
pub open spec fn segs_from(cs: Seq<ChunkShape>, i: int) -> Seq<(Style, Seq<char>)>
    decreases cs.len() - i,
{
    if i < 0 || i >= cs.len() {
        Seq::empty()
    } else {
        let head = match cs[i] {
            ChunkShape::Same(x) => seq![(Style::Plain, " "@ + x + "\n"@)],
            ChunkShape::Rem(x) => seq![(Style::Removed, "-"@ + x + "\n"@)],
            ChunkShape::Add(x) => match (if i > 0 {
                cs[i - 1]
            } else {
                ChunkShape::Same(Seq::empty())
            }) {
                ChunkShape::Rem(y) => seq![(Style::Added, "+"@)] + inline_segs_from(
                    changeset_of(y, x, ""@),
                    0,
                ) + seq![(Style::Added, "\n"@)],
                _ => seq![(Style::AddedBright, "+"@ + x + "\n"@)],
            },
        };
        head + segs_from(cs, i + 1)
    }
}

/// The full styled diff between the current and the proposed content,
/// line-split at `\n`.
pub open spec fn spec_diff_segs(current: Seq<char>, proposed: Seq<char>) -> Seq<
    (Style, Seq<char>),
> {
    segs_from(changeset_of(current, proposed, "\n"@), 0)
}

/// Computes the styled diff between the current and the proposed content of
/// one conflicting file.
pub fn conflict_diff(current: &str, proposed: &str) -> (r: Vec<DiffSeg>)
    ensures
        segs_view(r@) == spec_diff_segs(current@, proposed@),
{
    let chunks: Vec<Chunk> = changeset(current, proposed, "\n");
    let ghost cv = chunks_view(chunks@);
    let n: usize = chunks.len();
    let mut out: Vec<DiffSeg> = Vec::new();
    let mut i: usize = 0;
    proof {
        assert(segs_view(out@) =~= Seq::<(Style, Seq<char>)>::empty());
        assert(segs_view(out@) + segs_from(cv, 0) =~= segs_from(cv, 0));
    }
    while i < n
        invariant
            0 <= i <= n,
            n == chunks.len(),
            cv == chunks_view(chunks@),
            cv.len() == n as int,
            spec_diff_segs(current@, proposed@) == segs_view(out@) + segs_from(cv, i as int),
        decreases n - i,
    {
        let ghost before = segs_view(out@);
        proof {
            assert(cv[i as int] == chunks@[i as int]@);
            if i > 0 {
                assert(cv[i - 1] == chunks@[i - 1]@);
            }
        }
        match &chunks[i] {
            Chunk::Same(x) => {
                let text = String::from_str(" ").concat(x.as_str()).concat("\n");
                out.push(DiffSeg { style: Style::Plain, text });
                proof {
                    assert(segs_view(out@) =~= before + seq![(Style::Plain, " "@ + x@ + "\n"@)]);
                }
            },
            Chunk::Rem(x) => {
                let text = String::from_str("-").concat(x.as_str()).concat("\n");
                out.push(DiffSeg { style: Style::Removed, text });
                proof {
                    assert(segs_view(out@) =~= before + seq![(Style::Removed, "-"@ + x@ + "\n"@)]);
                }
            },
            Chunk::Add(x) => {
                let mut refined: bool = false;
                if i > 0 {
                    match &chunks[i - 1] {
                        Chunk::Rem(y) => {
                            refined = true;
                            out.push(
                                DiffSeg { style: Style::Added, text: String::from_str("+") },
                            );
                            let inner: Vec<Chunk> = changeset(y.as_str(), x.as_str(), "");
                            let ghost iv = chunks_view(inner@);
                            let m: usize = inner.len();
                            let mut j: usize = 0;
                            proof {
                                assert(segs_view(out@) =~= before + seq![(Style::Added, "+"@)]);
                            }
                            while j < m
                                invariant
                                    0 <= j <= m,
                                    m == inner.len(),
                                    iv == chunks_view(inner@),
                                    iv.len() == m as int,
                                    segs_view(out@) + inline_segs_from(iv, j as int) == before
                                        + seq![(Style::Added, "+"@)] + inline_segs_from(iv, 0),
                                decreases m - j,
                            {
                                let ghost mid = segs_view(out@);
                                proof {
                                    assert(iv[j as int] == inner@[j as int]@);
                                }
                                match &inner[j] {
                                    Chunk::Same(z) => {
                                        out.push(
                                            DiffSeg {
                                                style: Style::Added,
                                                text: z.clone(),
                                            },
                                        );
                                        proof {
                                            assert(segs_view(out@) =~= mid + seq![
                                                (Style::Added, z@),
                                            ]);
                                        }
                                    },
                                    Chunk::Add(z) => {
                                        out.push(
                                            DiffSeg {
                                                style: Style::AddedEmphasis,
                                                text: z.clone(),
                                            },
                                        );
                                        proof {
                                            assert(segs_view(out@) =~= mid + seq![
                                                (Style::AddedEmphasis, z@),
                                            ]);
                                        }
                                    },
                                    Chunk::Rem(_) => {
                                        proof {
                                            assert(segs_view(out@) =~= mid);
                                        }
                                    },
                                }
                                j = j + 1;
                            }
                            out.push(
                                DiffSeg { style: Style::Added, text: String::from_str("\n") },
                            );
                            proof {
                                assert(inline_segs_from(iv, m as int) =~= Seq::<
                                    (Style, Seq<char>),
                                >::empty());
                                assert(segs_view(out@) =~= (before + seq![(Style::Added, "+"@)]
                                    + inline_segs_from(iv, 0)) + seq![(Style::Added, "\n"@)]);
                                assert(segs_view(out@) =~= before + (seq![(Style::Added, "+"@)]
                                    + inline_segs_from(changeset_of(y@, x@, ""@), 0) + seq![
                                    (Style::Added, "\n"@),
                                ]));
                            }
                        },
                        _ => {},
                    }
                }
                if !refined {
                    let text = String::from_str("+").concat(x.as_str()).concat("\n");
                    out.push(DiffSeg { style: Style::AddedBright, text });
                    proof {
                        assert(segs_view(out@) =~= before + seq![
                            (Style::AddedBright, "+"@ + x@ + "\n"@),
                        ]);
                    }
                }
            },
        }
        i = i + 1;
    }
    proof {
        assert(segs_from(cv, n as int) =~= Seq::<(Style, Seq<char>)>::empty());
        assert(segs_view(out@) + segs_from(cv, n as int) =~= segs_view(out@));
    }
    out
}

/// The concatenated text of styled segments from position `i` on.
pub open spec fn segs_text_from(ss: Seq<(Style, Seq<char>)>, i: int) -> Seq<char>
    decreases ss.len() - i,
{
    if i < 0 || i >= ss.len() {
        Seq::empty()
    } else {
        ss[i].1 + segs_text_from(ss, i + 1)
    }
}

/// Flattens a styled diff to its plain text, styles dropped.
pub fn diff_to_string(segs: &Vec<DiffSeg>) -> (r: String)
    ensures
        r@ == segs_text_from(segs_view(segs@), 0),
{
    let ghost sv = segs_view(segs@);
    let n: usize = segs.len();
    let mut out: String = String::new();
    let mut i: usize = 0;
    proof {
        assert(out@ + segs_text_from(sv, 0) =~= segs_text_from(sv, 0));
    }
    while i < n
        invariant
            0 <= i <= n,
            n == segs.len(),
            sv == segs_view(segs@),
            sv.len() == n as int,
            segs_text_from(sv, 0) == out@ + segs_text_from(sv, i as int),
        decreases n - i,
    {
        let ghost before = out@;
        proof {
            assert(sv[i as int] == segs@[i as int]@);
        }
        out.append(segs[i].text.as_str());
        proof {
            assert(before + (sv[i as int].1 + segs_text_from(sv, i + 1)) =~= out@
                + segs_text_from(sv, i + 1));
        }
        i = i + 1;
    }
    proof {
        assert(segs_text_from(sv, n as int) =~= Seq::<char>::empty());
        assert(out@ + segs_text_from(sv, n as int) =~= out@);
    }
    out
}

} // verus!
