//! Parses a flat `key=value` defaults source into an ordered list of
//! `(name, default value)` pairs.
//!
//! A line whose first character is `#` is a full-line comment and is
//! discarded. Remaining lines are split at the first `=`; lines without one
//! are silently dropped. The value is cut at the first `#` (inline comment),
//! and both name and value are trimmed of surrounding whitespace. Source
//! order is preserved, and duplicate names are kept as they appear.

use crate::chars::{
    find_char_in, first_idx, lemma_first_idx_is, lemma_first_idx_none,
    trim_range, trim_spec,
};
use vstd::prelude::*;

verus! {

/// An ordered list of `(name, default value)` pairs, as parsed.
pub type Defaults = Vec<(String, String)>;

/// A `\n`-terminated line has one trailing `\r` removed, as `str::lines`
/// does for `\r\n` endings.
pub open spec fn strip_cr(l: Seq<char>) -> Seq<char> {
    if l.len() > 0 && l[l.len() - 1] == '\r' {
        l.subrange(0, l.len() - 1)
    } else {
        l
    }
}

/// The lines of `s`, split at `\n`, with `\r\n` endings recognised and the
/// optional final line ending producing no empty last line.
pub open spec fn split_lines(s: Seq<char>) -> Seq<Seq<char>>
    decreases s.len(),
{
    if s.len() == 0 {
        Seq::empty()
    } else {
        let i = first_idx(s, '\n');
        if 0 <= i && i < s.len() {
            seq![strip_cr(s.subrange(0, i))] + split_lines(s.subrange(i + 1, s.len() as int))
        } else {
            seq![s]
        }
    }
}

/// What one line contributes: `None` for comment lines and lines without
/// `=`; otherwise the trimmed name before the first `=` and the trimmed
/// value after it, cut at the first `#`.
pub open spec fn parse_line(l: Seq<char>) -> Option<(Seq<char>, Seq<char>)> {
    if l.len() > 0 && l[0] == '#' {
        None
    } else {
        let e = first_idx(l, '=');
        if e < 0 {
            None
        } else {
            let key = l.subrange(0, e);
            let rest = l.subrange(e + 1, l.len() as int);
            let h = first_idx(rest, '#');
            let raw = if h < 0 {
                rest
            } else {
                rest.subrange(0, h)
            };
            Some((trim_spec(key), trim_spec(raw)))
        }
    }
}

/// The pairs contributed by a sequence of lines, in order.
pub open spec fn parse_pairs(ls: Seq<Seq<char>>) -> Seq<(Seq<char>, Seq<char>)>
    decreases ls.len(),
{
    if ls.len() == 0 {
        Seq::empty()
    } else {
        let rest = parse_pairs(ls.subrange(1, ls.len() as int));
        match parse_line(ls[0]) {
            Some(p) => seq![p] + rest,
            None => rest,
        }
    }
}

/// The meaning of the defaults source `s`: its surviving `(name, value)`
/// pairs in source order.
pub open spec fn parse_defaults(s: Seq<char>) -> Seq<(Seq<char>, Seq<char>)> {
    parse_pairs(split_lines(s))
}

/// Parses the single line lying at `[lstart, lend)` of `text`, yielding the
/// pair it contributes, if any.
fn parse_line_range(text: &str, lstart: usize, lend: usize) -> (r: Option<(String, String)>)
    requires
        lstart <= lend,
        lend as int <= text@.len(),
    ensures
        ({
            let line = text@.subrange(lstart as int, lend as int);
            match r {
                Some(p) => parse_line(line) == Some((p.0@, p.1@)),
                None => parse_line(line) is None,
            }
        }),
{
    let ghost line = text@.subrange(lstart as int, lend as int);
    if lend > lstart && text.get_char(lstart) == '#' {
        proof {
            assert(line[0] == text@[lstart as int]);
        }
        return None;
    }
    proof {
        if line.len() > 0 {
            assert(line[0] == text@[lstart as int]);
        }
    }
    let eq_found = find_char_in(text, lstart, lend, '=');
    let e: usize = match eq_found {
        None => {
            proof {
                assert forall|j: int| 0 <= j < line.len() implies line[j] != '=' by {
                    assert(line[j] == text@[lstart + j]);
                }
                lemma_first_idx_none(line, '=');
            }
            return None;
        },
        Some(e) => e,
    };
    proof {
        assert(line[e - lstart] == text@[e as int]);
        assert forall|j: int| 0 <= j < e - lstart implies line[j] != '=' by {
            assert(line[j] == text@[lstart + j]);
        }
        lemma_first_idx_is(line, '=', e - lstart);
    }
    let ghost rest = line.subrange(e - lstart + 1, line.len() as int);
    let hash_found = find_char_in(text, e + 1, lend, '#');
    let vend: usize = match hash_found {
        Some(h) => h,
        None => lend,
    };
    proof {
        assert(rest =~= text@.subrange(e + 1, lend as int));
        match hash_found {
            Some(h) => {
                assert(rest[h - (e + 1)] == text@[h as int]);
                assert forall|j: int| 0 <= j < h - (e + 1) implies rest[j] != '#' by {
                    assert(rest[j] == text@[e + 1 + j]);
                }
                lemma_first_idx_is(rest, '#', h - (e + 1));
                assert(rest.subrange(0, h - (e + 1)) =~= text@.subrange(e + 1, h as int));
            },
            None => {
                assert forall|j: int| 0 <= j < rest.len() implies rest[j] != '#' by {
                    assert(rest[j] == text@[e + 1 + j]);
                }
                lemma_first_idx_none(rest, '#');
            },
        }
    }
    let (ka, kb) = trim_range(text, lstart, e);
    let key: String = String::from_str(text.substring_char(ka, kb));
    let (va, vb) = trim_range(text, e + 1, vend);
    let value: String = String::from_str(text.substring_char(va, vb));
    proof {
        assert(line.subrange(0, e - lstart) =~= text@.subrange(lstart as int, e as int));
        assert(parse_line(line) == Some((key@, value@)));
    }
    Some((key, value))
}

/// Parses key/value pairs from a string of defaults source text.
pub fn from_string(s: String) -> (r: Defaults)
    ensures
        r.deep_view() == parse_defaults(s@),
{
    let text: &str = s.as_str();
    let n: usize = text.unicode_len();
    let mut acc: Vec<(String, String)> = Vec::new();
    let mut pos: usize = 0;
    proof {
        assert(s@.subrange(0, n as int) =~= s@);
        assert(acc.deep_view() + parse_defaults(s@) =~= parse_defaults(s@));
    }
    while pos < n
        invariant
            0 <= pos <= n,
            n as int == text@.len(),
            text@ == s@,
            parse_defaults(s@) == acc.deep_view() + parse_pairs(
                split_lines(s@.subrange(pos as int, n as int)),
            ),
        decreases n - pos,
    {
        let ghost rem = text@.subrange(pos as int, n as int);
        let found = find_char_in(text, pos, n, '\n');
        let line_end: usize = match found {
            Some(i) => i,
            None => n,
        };
        let next_pos: usize = match found {
            Some(i) => i + 1,
            None => n,
        };
        proof {
            match found {
                Some(i) => {
                    assert(rem[i - pos] == text@[i as int]);
                    assert forall|j: int| 0 <= j < i - pos implies rem[j] != '\n' by {
                        assert(rem[j] == text@[pos + j]);
                    }
                    lemma_first_idx_is(rem, '\n', i - pos);
                },
                None => {
                    assert forall|j: int| 0 <= j < rem.len() implies rem[j] != '\n' by {
                        assert(rem[j] == text@[pos + j]);
                    }
                    lemma_first_idx_none(rem, '\n');
                },
            }
        }
        let lstart: usize = pos;
        let mut lend: usize = line_end;
        if found.is_some() && line_end > pos && text.get_char(line_end - 1) == '\r' {
            lend = line_end - 1;
        }
        let ghost line = text@.subrange(lstart as int, lend as int);
        let ghost rem_next = text@.subrange(next_pos as int, n as int);
        proof {
            match found {
                Some(i) => {
                    assert(rem.subrange(0, i - pos) =~= text@.subrange(pos as int, i as int));
                    assert(strip_cr(rem.subrange(0, i - pos)) =~= line);
                    assert(rem.subrange(i - pos + 1, rem.len() as int) =~= rem_next);
                    assert(split_lines(rem) =~= seq![line] + split_lines(rem_next));
                },
                None => {
                    assert(split_lines(rem) =~= seq![line]);
                    assert(rem_next =~= Seq::<char>::empty());
                    assert(seq![line] =~= seq![line] + split_lines(rem_next));
                },
            }
            assert((seq![line] + split_lines(rem_next)).subrange(
                1,
                (seq![line] + split_lines(rem_next)).len() as int,
            ) =~= split_lines(rem_next));
        }
        let parsed = parse_line_range(text, lstart, lend);
        let ghost old_acc = acc.deep_view();
        match parsed {
            Some(p) => {
                let ghost pv = (p.0@, p.1@);
                acc.push(p);
                proof {
                    assert(acc.deep_view() =~= old_acc + seq![pv]);
                    assert(parse_pairs(split_lines(rem)) =~= seq![pv] + parse_pairs(
                        split_lines(rem_next),
                    ));
                    assert(old_acc + (seq![pv] + parse_pairs(split_lines(rem_next))) =~= (old_acc
                        + seq![pv]) + parse_pairs(split_lines(rem_next)));
                }
            },
            None => {
                proof {
                    assert(parse_pairs(split_lines(rem)) =~= parse_pairs(split_lines(rem_next)));
                }
            },
        }
        pos = next_pos;
    }
    proof {
        assert(s@.subrange(pos as int, n as int) =~= Seq::<char>::empty());
        assert(acc.deep_view() + parse_pairs(split_lines(Seq::<char>::empty()))
            =~= acc.deep_view());
    }
    acc
}

} // verus!
