//! Context resolution: turns the parsed defaults into the final
//! name-to-value mapping used for every render of one apply.
//!
//! For each `(name, default)` pair in source order: when every default is
//! accepted, the default is taken as is; otherwise an override from the
//! injected environment wins, and failing that the operator's answer for
//! that name is taken (trimmed; an empty answer falls back to the default).
//! A name that occurs twice in the defaults is resolved once, at its first
//! occurrence; later occurrences are ignored.

use crate::chars::{str_eq, trim_range, trim_spec};
use crate::defaults::Defaults;
use vstd::prelude::*;

verus! {

/// Looks a name up in a sequence of pairs; the first occurrence wins.
pub open spec fn seq_lookup(ps: Seq<(Seq<char>, Seq<char>)>, k: Seq<char>) -> Option<Seq<char>>
    decreases ps.len(),
{
    if ps.len() == 0 {
        None
    } else if ps[0].0 == k {
        Some(ps[0].1)
    } else {
        seq_lookup(ps.subrange(1, ps.len() as int), k)
    }
}

pub proof fn lemma_seq_lookup_none(ps: Seq<(Seq<char>, Seq<char>)>, k: Seq<char>)
    ensures
        (seq_lookup(ps, k) is None) <==> (forall|i: int| 0 <= i < ps.len() ==> ps[i].0 != k),
    decreases ps.len(),
{
    if ps.len() > 0 && ps[0].0 != k {
        let t = ps.subrange(1, ps.len() as int);
        lemma_seq_lookup_none(t, k);
        if seq_lookup(ps, k) is None {
            assert forall|i: int| 0 <= i < ps.len() implies ps[i].0 != k by {
                if i > 0 {
                    assert(ps[i] == t[i - 1]);
                }
            }
        } else {
            assert forall|i: int| 0 <= i < t.len() implies t[i] == ps[i + 1] by {}
        }
    }
}

/// The value an answered prompt yields: the trimmed input, or the default
/// when the trimmed input is empty.
pub open spec fn spec_answer(default: Seq<char>, input: Seq<char>) -> Seq<char> {
    if trim_spec(input).len() == 0 {
        default
    } else {
        trim_spec(input)
    }
}

/// One resolution pass over `defaults`, first occurrence of each name wins;
/// `acc` holds the pairs already resolved.
pub open spec fn spec_resolve_rec(
    defaults: Seq<(Seq<char>, Seq<char>)>,
    accept: bool,
    env: Seq<(Seq<char>, Seq<char>)>,
    answers: Seq<Seq<char>>,
    acc: Seq<(Seq<char>, Seq<char>)>,
) -> Seq<(Seq<char>, Seq<char>)>
    decreases defaults.len(),
{
    if defaults.len() == 0 {
        acc
    } else {
        let k = defaults[0].0;
        let d = defaults[0].1;
        let rest = defaults.subrange(1, defaults.len() as int);
        if seq_lookup(acc, k) is Some {
            spec_resolve_rec(rest, accept, env, answers, acc)
        } else if accept {
            spec_resolve_rec(rest, accept, env, answers, acc.push((k, d)))
        } else if seq_lookup(env, k) is Some {
            spec_resolve_rec(rest, accept, env, answers, acc.push((k, seq_lookup(env, k)->0)))
        } else {
            let rest_ans = if answers.len() > 0 {
                answers.subrange(1, answers.len() as int)
            } else {
                answers
            };
            spec_resolve_rec(rest, accept, env, rest_ans, acc.push((k, spec_answer(d, answers[0]))))
        }
    }
}

/// The resolved context for `defaults` under `accept`, `env` and the
/// operator's `answers`.
pub open spec fn spec_resolve(
    defaults: Seq<(Seq<char>, Seq<char>)>,
    accept: bool,
    env: Seq<(Seq<char>, Seq<char>)>,
    answers: Seq<Seq<char>>,
) -> Seq<(Seq<char>, Seq<char>)> {
    spec_resolve_rec(defaults, accept, env, answers, Seq::empty())
}

/// `k` is among the names `ns`.
pub open spec fn name_in(ns: Seq<Seq<char>>, k: Seq<char>) -> bool {
    exists|i: int| 0 <= i < ns.len() && ns[i] == k
}

/// The names of a sequence of pairs, in order.
pub open spec fn names_of(ps: Seq<(Seq<char>, Seq<char>)>) -> Seq<Seq<char>> {
    ps.map(|i: int, p: (Seq<char>, Seq<char>)| p.0)
}

/// The `(name, default)` pairs that reach the operator: first occurrences
/// without an environment override; `seen` holds names already handled.
pub open spec fn spec_prompts_rec(
    defaults: Seq<(Seq<char>, Seq<char>)>,
    env: Seq<(Seq<char>, Seq<char>)>,
    seen: Seq<Seq<char>>,
) -> Seq<(Seq<char>, Seq<char>)>
    decreases defaults.len(),
{
    if defaults.len() == 0 {
        Seq::empty()
    } else {
        let k = defaults[0].0;
        let d = defaults[0].1;
        let rest = defaults.subrange(1, defaults.len() as int);
        if name_in(seen, k) {
            spec_prompts_rec(rest, env, seen)
        } else if seq_lookup(env, k) is Some {
            spec_prompts_rec(rest, env, seen.push(k))
        } else {
            seq![(k, d)] + spec_prompts_rec(rest, env, seen.push(k))
        }
    }
}

/// The `(name, default)` pairs that will be prompted for, in source order.
pub open spec fn spec_prompts(
    defaults: Seq<(Seq<char>, Seq<char>)>,
    env: Seq<(Seq<char>, Seq<char>)>,
) -> Seq<(Seq<char>, Seq<char>)> {
    spec_prompts_rec(defaults, env, Seq::empty())
}

/// The resolved name-to-value mapping used as the substitution environment
/// for every render call of one apply; names are unique.
pub struct Context {
    pairs: Vec<(String, String)>,
}

impl View for Context {
    type V = Seq<(Seq<char>, Seq<char>)>;

    closed spec fn view(&self) -> Seq<(Seq<char>, Seq<char>)> {
        self.pairs.deep_view()
    }
}

impl Context {
    /// Names are unique: resolution keeps the first occurrence only.
    pub open spec fn wf(self) -> bool {
        forall|i: int, j: int| 0 <= i < j < self@.len() ==> self@[i].0 != self@[j].0
    }

    /// The resolved pairs, in resolution order.
    pub fn pairs(&self) -> (r: &Vec<(String, String)>)
        ensures
            r.deep_view() == self@,
    {
        &self.pairs
    }

    /// The resolved value for `name`, if any.
    pub fn lookup(&self, name: &str) -> (r: Option<&String>)
        ensures
            match r {
                Some(v) => seq_lookup(self@, name@) == Some(v@),
                None => seq_lookup(self@, name@) is None,
            },
    {
        lookup_pairs(&self.pairs, name)
    }
}

/// Finds the first pair named `name` in `v`.
fn lookup_pairs<'a>(v: &'a Vec<(String, String)>, name: &str) -> (r: Option<&'a String>)
    ensures
        match r {
            Some(val) => seq_lookup(v.deep_view(), name@) == Some(val@),
            None => seq_lookup(v.deep_view(), name@) is None,
        },
{
    let ghost full = v.deep_view();
    let n: usize = v.len();
    let mut i: usize = 0;
    proof {
        assert(full.subrange(0, full.len() as int) =~= full);
    }
    while i < n
        invariant
            0 <= i <= n,
            n == v.len(),
            full == v.deep_view(),
            seq_lookup(full, name@) == seq_lookup(
                full.subrange(i as int, full.len() as int),
                name@,
            ),
        decreases n - i,
    {
        let ghost rem = full.subrange(i as int, full.len() as int);
        proof {
            assert(rem[0] == full[i as int]);
            assert(rem.subrange(1, rem.len() as int) =~= full.subrange(
                i + 1,
                full.len() as int,
            ));
        }
        if str_eq(v[i].0.as_str(), name) {
            return Some(&v[i].1);
        }
        i = i + 1;
    }
    proof {
        assert(full.subrange(n as int, full.len() as int) =~= Seq::<
            (Seq<char>, Seq<char>),
        >::empty());
    }
    None
}

/// The value one prompt resolves to: the trimmed `input`, or `default`
/// when the trimmed input is empty.
pub fn answer_value(default: &str, input: &str) -> (r: String)
    ensures
        r@ == spec_answer(default@, input@),
{
    let n: usize = input.unicode_len();
    let (a, b) = trim_range(input, 0, n);
    proof {
        assert(input@.subrange(0, n as int) =~= input@);
    }
    if a == b {
        String::from_str(default)
    } else {
        String::from_str(input.substring_char(a, b))
    }
}

/// Resolves the context: defaults verbatim when `accept` is set, else the
/// environment override for each name, else the operator's next answer.
/// First occurrence of a duplicated name wins.
pub fn resolve(
    defaults: &Defaults,
    accept: bool,
    env: &Vec<(String, String)>,
    answers: &Vec<String>,
) -> (r: Context)
    requires
        accept || answers.deep_view().len() == spec_prompts(
            defaults.deep_view(),
            env.deep_view(),
        ).len(),
    ensures
        r@ == spec_resolve(defaults.deep_view(), accept, env.deep_view(), answers.deep_view()),
        r.wf(),
{
    let ghost dv = defaults.deep_view();
    let ghost ev = env.deep_view();
    let ghost av = answers.deep_view();
    let n: usize = defaults.len();
    let na: usize = answers.len();
    let mut acc: Vec<(String, String)> = Vec::new();
    let mut di: usize = 0;
    let mut ai: usize = 0;
    proof {
        assert(dv.subrange(0, dv.len() as int) =~= dv);
        assert(av.subrange(0, av.len() as int) =~= av);
        assert(acc.deep_view() =~= Seq::<(Seq<char>, Seq<char>)>::empty());
        assert(names_of(acc.deep_view()) =~= Seq::<Seq<char>>::empty());
    }
    while di < n
        invariant
            0 <= di <= n,
            0 <= ai <= na,
            n == defaults.len(),
            na == answers.len(),
            dv == defaults.deep_view(),
            ev == env.deep_view(),
            av == answers.deep_view(),
            av.len() == na as int,
            dv.len() == n as int,
            spec_resolve(dv, accept, ev, av) == spec_resolve_rec(
                dv.subrange(di as int, n as int),
                accept,
                ev,
                av.subrange(ai as int, na as int),
                acc.deep_view(),
            ),
            accept || spec_prompts_rec(
                dv.subrange(di as int, n as int),
                ev,
                names_of(acc.deep_view()),
            ).len() == na - ai,
            forall|i: int, j: int|
                0 <= i < j < acc.deep_view().len() ==> acc.deep_view()[i].0 != acc.deep_view()[
                    j
                ].0,
        decreases n - di,
    {
        let ghost remd = dv.subrange(di as int, n as int);
        let ghost rema = av.subrange(ai as int, na as int);
        let ghost accv = acc.deep_view();
        proof {
            assert(remd[0] == dv[di as int]);
            assert(dv[di as int] == (defaults@[di as int].0@, defaults@[di as int].1@));
            assert(remd.subrange(1, remd.len() as int) =~= dv.subrange(di + 1, n as int));
        }
        let seen: bool = match lookup_pairs(&acc, defaults[di].0.as_str()) {
            Some(_) => true,
            None => false,
        };
        let ghost k = dv[di as int].0;
        let ghost d = dv[di as int].1;
        if seen {
            proof {
                lemma_seq_lookup_none(accv, k);
                let w = choose|w: int| 0 <= w < accv.len() && accv[w].0 == k;
                assert(names_of(accv)[w] == k);
                assert(name_in(names_of(accv), k));
            }
            di = di + 1;
            continue ;
        }
        proof {
            lemma_seq_lookup_none(accv, k);
            assert forall|w: int| 0 <= w < names_of(accv).len() implies names_of(accv)[w] != k by {
                assert(names_of(accv)[w] == accv[w].0);
            }
            assert(!name_in(names_of(accv), k));
        }
        if accept {
            let pair = (defaults[di].0.clone(), defaults[di].1.clone());
            acc.push(pair);
            proof {
                assert(acc.deep_view() =~= accv.push((k, d)));
            }
        } else {
            let env_val: Option<String> = match lookup_pairs(env, defaults[di].0.as_str()) {
                Some(v) => Some(v.clone()),
                None => None,
            };
            match env_val {
                Some(v) => {
                    proof {
                        assert(seq_lookup(ev, k) == Some(v@));
                        assert(names_of(accv.push((k, v@))) =~= names_of(accv).push(k));
                    }
                    acc.push((defaults[di].0.clone(), v));
                    proof {
                        assert(acc.deep_view() =~= accv.push((k, seq_lookup(ev, k)->0)));
                    }
                },
                None => {
                    proof {
                        assert(spec_prompts_rec(remd, ev, names_of(accv)) =~= seq![(k, d)]
                            + spec_prompts_rec(
                            dv.subrange(di + 1, n as int),
                            ev,
                            names_of(accv).push(k),
                        ));
                        assert(ai < na);
                        assert(rema[0] == av[ai as int]);
                        assert(rema.subrange(1, rema.len() as int) =~= av.subrange(
                            ai + 1,
                            na as int,
                        ));
                    }
                    let val = answer_value(defaults[di].1.as_str(), answers[ai].as_str());
                    ai = ai + 1;
                    proof {
                        assert(names_of(accv.push((k, spec_answer(d, av[ai - 1])))) =~= names_of(
                            accv,
                        ).push(k));
                    }
                    acc.push((defaults[di].0.clone(), val));
                    proof {
                        assert(acc.deep_view() =~= accv.push((k, spec_answer(d, rema[0]))));
                    }
                },
            }
        }
        di = di + 1;
    }
    proof {
        assert(dv.subrange(n as int, n as int) =~= Seq::<(Seq<char>, Seq<char>)>::empty());
    }
    Context { pairs: acc }
}

/// The `(name, default)` pairs the operator will be asked about, in source
/// order: first occurrences of names without an environment override.
pub fn prompts(defaults: &Defaults, env: &Vec<(String, String)>) -> (r: Vec<(String, String)>)
    ensures
        r.deep_view() == spec_prompts(defaults.deep_view(), env.deep_view()),
{
    let ghost dv = defaults.deep_view();
    let ghost ev = env.deep_view();
    let n: usize = defaults.len();
    let mut out: Vec<(String, String)> = Vec::new();
    let mut seen: Vec<(String, String)> = Vec::new();
    let mut di: usize = 0;
    proof {
        assert(dv.subrange(0, dv.len() as int) =~= dv);
        assert(out.deep_view() =~= Seq::<(Seq<char>, Seq<char>)>::empty());
        assert(names_of(seen.deep_view()) =~= Seq::<Seq<char>>::empty());
        assert(out.deep_view() + spec_prompts(dv, ev) =~= spec_prompts(dv, ev));
    }
    while di < n
        invariant
            0 <= di <= n,
            n == defaults.len(),
            dv == defaults.deep_view(),
            ev == env.deep_view(),
            dv.len() == n as int,
            spec_prompts(dv, ev) == out.deep_view() + spec_prompts_rec(
                dv.subrange(di as int, n as int),
                ev,
                names_of(seen.deep_view()),
            ),
        decreases n - di,
    {
        let ghost remd = dv.subrange(di as int, n as int);
        let ghost seenv = seen.deep_view();
        let ghost outv = out.deep_view();
        proof {
            assert(remd[0] == dv[di as int]);
            assert(dv[di as int] == (defaults@[di as int].0@, defaults@[di as int].1@));
            assert(remd.subrange(1, remd.len() as int) =~= dv.subrange(di + 1, n as int));
        }
        let ghost k = dv[di as int].0;
        let ghost d = dv[di as int].1;
        let already: bool = match lookup_pairs(&seen, defaults[di].0.as_str()) {
            Some(_) => true,
            None => false,
        };
        if already {
            proof {
                lemma_seq_lookup_none(seenv, k);
                let w = choose|w: int| 0 <= w < seenv.len() && seenv[w].0 == k;
                assert(names_of(seenv)[w] == k);
                assert(name_in(names_of(seenv), k));
            }
            di = di + 1;
            continue ;
        }
        proof {
            lemma_seq_lookup_none(seenv, k);
            assert forall|w: int| 0 <= w < names_of(seenv).len() implies names_of(seenv)[w]
                != k by {
                assert(names_of(seenv)[w] == seenv[w].0);
            }
            assert(!name_in(names_of(seenv), k));
        }
        let in_env: bool = match lookup_pairs(env, defaults[di].0.as_str()) {
            Some(_) => true,
            None => false,
        };
        let pair = (defaults[di].0.clone(), defaults[di].1.clone());
        if !in_env {
            out.push((defaults[di].0.clone(), defaults[di].1.clone()));
        }
        seen.push(pair);
        proof {
            assert(names_of(seen.deep_view()) =~= names_of(seenv).push(k));
            if in_env {
                assert(out.deep_view() =~= outv);
            } else {
                assert(out.deep_view() =~= outv.push((k, d)));
                assert(outv + (seq![(k, d)] + spec_prompts_rec(
                    dv.subrange(di + 1, n as int),
                    ev,
                    names_of(seenv).push(k),
                )) =~= out.deep_view() + spec_prompts_rec(
                    dv.subrange(di + 1, n as int),
                    ev,
                    names_of(seenv).push(k),
                ));
            }
        }
        di = di + 1;
    }
    proof {
        assert(dv.subrange(n as int, n as int) =~= Seq::<(Seq<char>, Seq<char>)>::empty());
        assert(out.deep_view() + spec_prompts_rec(
            Seq::<(Seq<char>, Seq<char>)>::empty(),
            ev,
            names_of(seen.deep_view()),
        ) =~= out.deep_view());
    }
    out
}

/// How a lookup sees one appended pair: the front of the sequence still
/// wins.
pub proof fn lemma_seq_lookup_push(
    ps: Seq<(Seq<char>, Seq<char>)>,
    p: (Seq<char>, Seq<char>),
    k: Seq<char>,
)
    ensures
        seq_lookup(ps.push(p), k) == (if seq_lookup(ps, k) is Some {
            seq_lookup(ps, k)
        } else if p.0 == k {
            Some(p.1)
        } else {
            None
        }),
    decreases ps.len(),
{
    if ps.len() == 0 {
        assert(ps.push(p)[0] == p);
        assert(ps.push(p).subrange(1, 1) =~= Seq::<(Seq<char>, Seq<char>)>::empty());
        assert(seq_lookup(Seq::<(Seq<char>, Seq<char>)>::empty(), k) is None);
        if p.0 == k {
            assert(seq_lookup(ps.push(p), k) == Some(p.1));
        } else {
            assert(seq_lookup(ps.push(p), k) is None);
        }
    } else {
        let t = ps.subrange(1, ps.len() as int);
        assert(ps.push(p)[0] == ps[0]);
        assert(ps.push(p).subrange(1, ps.push(p).len() as int) =~= t.push(p));
        lemma_seq_lookup_push(t, p, k);
        if ps[0].0 == k {
            assert(seq_lookup(ps.push(p), k) == Some(ps[0].1));
        } else {
            assert(seq_lookup(ps.push(p), k) == seq_lookup(t.push(p), k));
            assert(seq_lookup(ps, k) == seq_lookup(t, k));
        }
    }
}

/// Accepting all defaults ignores the environment and the answer stream:
/// two resolutions with `accept` set agree whatever else differs.
pub proof fn lemma_accept_all_deterministic(
    defaults: Seq<(Seq<char>, Seq<char>)>,
    env1: Seq<(Seq<char>, Seq<char>)>,
    answers1: Seq<Seq<char>>,
    env2: Seq<(Seq<char>, Seq<char>)>,
    answers2: Seq<Seq<char>>,
)
    ensures
        spec_resolve(defaults, true, env1, answers1) == spec_resolve(
            defaults,
            true,
            env2,
            answers2,
        ),
{
    lemma_accept_all_rec(defaults, env1, answers1, env2, answers2, Seq::empty());
}

proof fn lemma_accept_all_rec(
    defaults: Seq<(Seq<char>, Seq<char>)>,
    env1: Seq<(Seq<char>, Seq<char>)>,
    answers1: Seq<Seq<char>>,
    env2: Seq<(Seq<char>, Seq<char>)>,
    answers2: Seq<Seq<char>>,
    acc: Seq<(Seq<char>, Seq<char>)>,
)
    ensures
        spec_resolve_rec(defaults, true, env1, answers1, acc) == spec_resolve_rec(
            defaults,
            true,
            env2,
            answers2,
            acc,
        ),
    decreases defaults.len(),
{
    if defaults.len() > 0 {
        let k = defaults[0].0;
        let d = defaults[0].1;
        let rest = defaults.subrange(1, defaults.len() as int);
        if seq_lookup(acc, k) is Some {
            lemma_accept_all_rec(rest, env1, answers1, env2, answers2, acc);
        } else {
            lemma_accept_all_rec(rest, env1, answers1, env2, answers2, acc.push((k, d)));
        }
    }
}

/// Accepting all defaults yields the defaults verbatim: looking any name up
/// in the resolved context gives exactly what a first-occurrence lookup in
/// the defaults gives.
pub proof fn lemma_accept_all_verbatim(
    defaults: Seq<(Seq<char>, Seq<char>)>,
    env: Seq<(Seq<char>, Seq<char>)>,
    answers: Seq<Seq<char>>,
    k: Seq<char>,
)
    ensures
        seq_lookup(spec_resolve(defaults, true, env, answers), k) == seq_lookup(defaults, k),
{
    lemma_accept_all_verbatim_rec(defaults, env, answers, Seq::empty(), k);
}

proof fn lemma_accept_all_verbatim_rec(
    defaults: Seq<(Seq<char>, Seq<char>)>,
    env: Seq<(Seq<char>, Seq<char>)>,
    answers: Seq<Seq<char>>,
    acc: Seq<(Seq<char>, Seq<char>)>,
    k: Seq<char>,
)
    ensures
        seq_lookup(spec_resolve_rec(defaults, true, env, answers, acc), k) == (if seq_lookup(
            acc,
            k,
        ) is Some {
            seq_lookup(acc, k)
        } else {
            seq_lookup(defaults, k)
        }),
    decreases defaults.len(),
{
    if defaults.len() == 0 {
        if seq_lookup(acc, k) is None {
        }
    } else {
        let k0 = defaults[0].0;
        let d0 = defaults[0].1;
        let rest = defaults.subrange(1, defaults.len() as int);
        if seq_lookup(acc, k0) is Some {
            lemma_accept_all_verbatim_rec(rest, env, answers, acc, k);
        } else {
            lemma_seq_lookup_push(acc, (k0, d0), k);
            lemma_accept_all_verbatim_rec(rest, env, answers, acc.push((k0, d0)), k);
        }
    }
}

/// An environment override is taken verbatim: when `k` has one and occurs
/// among the defaults, the resolved context holds exactly the override —
/// untrimmed, unvalidated, whatever the answer stream says.
pub proof fn lemma_env_override_verbatim(
    defaults: Seq<(Seq<char>, Seq<char>)>,
    env: Seq<(Seq<char>, Seq<char>)>,
    answers: Seq<Seq<char>>,
    k: Seq<char>,
)
    requires
        seq_lookup(env, k) is Some,
        name_in(names_of(defaults), k),
    ensures
        seq_lookup(spec_resolve(defaults, false, env, answers), k) == seq_lookup(env, k),
{
    lemma_env_override_verbatim_rec(defaults, env, answers, Seq::empty(), k);
}

proof fn lemma_env_override_verbatim_rec(
    defaults: Seq<(Seq<char>, Seq<char>)>,
    env: Seq<(Seq<char>, Seq<char>)>,
    answers: Seq<Seq<char>>,
    acc: Seq<(Seq<char>, Seq<char>)>,
    k: Seq<char>,
)
    requires
        seq_lookup(env, k) is Some,
    ensures
        seq_lookup(spec_resolve_rec(defaults, false, env, answers, acc), k) == (if seq_lookup(
            acc,
            k,
        ) is None && name_in(names_of(defaults), k) {
            seq_lookup(env, k)
        } else {
            seq_lookup(acc, k)
        }),
    decreases defaults.len(),
{
    if defaults.len() == 0 {
        assert(names_of(defaults).len() == 0);
    } else {
        let k0 = defaults[0].0;
        let d0 = defaults[0].1;
        let rest = defaults.subrange(1, defaults.len() as int);
        assert(names_of(defaults)[0] == k0);
        assert forall|i: int| 0 <= i < names_of(rest).len() implies names_of(rest)[i]
            == names_of(defaults)[i + 1] by {
            assert(names_of(rest)[i] == rest[i].0);
            assert(names_of(defaults)[i + 1] == defaults[i + 1].0);
        }
        assert(name_in(names_of(defaults), k) <==> (k0 == k || name_in(names_of(rest), k))) by {
            if name_in(names_of(defaults), k) {
                let w = choose|w: int|
                    0 <= w < names_of(defaults).len() && names_of(defaults)[w] == k;
                if w > 0 {
                    assert(names_of(rest)[w - 1] == k);
                }
            }
            if name_in(names_of(rest), k) {
                let w = choose|w: int| 0 <= w < names_of(rest).len() && names_of(rest)[w] == k;
                assert(names_of(defaults)[w + 1] == k);
            }
        }
        if seq_lookup(acc, k0) is Some {
            lemma_env_override_verbatim_rec(rest, env, answers, acc, k);
        } else if seq_lookup(env, k0) is Some {
            let acc2 = acc.push((k0, seq_lookup(env, k0)->0));
            lemma_seq_lookup_push(acc, (k0, seq_lookup(env, k0)->0), k);
            lemma_env_override_verbatim_rec(rest, env, answers, acc2, k);
        } else {
            // no override for this head, so it is not `k`
            assert(k0 != k);
            let acc2 = acc.push((k0, spec_answer(d0, answers[0])));
            lemma_seq_lookup_push(acc, (k0, spec_answer(d0, answers[0])), k);
            let rest_ans = if answers.len() > 0 {
                answers.subrange(1, answers.len() as int)
            } else {
                answers
            };
            lemma_env_override_verbatim_rec(rest, env, rest_ans, acc2, k);
        }
    }
}

/// A name with an environment override is never prompted for.
pub proof fn lemma_env_precedence(
    defaults: Seq<(Seq<char>, Seq<char>)>,
    env: Seq<(Seq<char>, Seq<char>)>,
    k: Seq<char>,
)
    requires
        seq_lookup(env, k) is Some,
    ensures
        forall|i: int|
            0 <= i < spec_prompts(defaults, env).len() ==> spec_prompts(defaults, env)[i].0 != k,
{
    lemma_env_precedence_rec(defaults, env, Seq::empty(), k);
}

proof fn lemma_env_precedence_rec(
    defaults: Seq<(Seq<char>, Seq<char>)>,
    env: Seq<(Seq<char>, Seq<char>)>,
    seen: Seq<Seq<char>>,
    k: Seq<char>,
)
    requires
        seq_lookup(env, k) is Some,
    ensures
        forall|i: int|
            0 <= i < spec_prompts_rec(defaults, env, seen).len() ==> spec_prompts_rec(
                defaults,
                env,
                seen,
            )[i].0 != k,
    decreases defaults.len(),
{
    if defaults.len() > 0 {
        let k0 = defaults[0].0;
        let d0 = defaults[0].1;
        let rest = defaults.subrange(1, defaults.len() as int);
        if name_in(seen, k0) {
            lemma_env_precedence_rec(rest, env, seen, k);
            assert(spec_prompts_rec(defaults, env, seen) == spec_prompts_rec(rest, env, seen));
        } else if seq_lookup(env, k0) is Some {
            lemma_env_precedence_rec(rest, env, seen.push(k0), k);
            assert(spec_prompts_rec(defaults, env, seen) == spec_prompts_rec(
                rest,
                env,
                seen.push(k0),
            ));
        } else {
            // this prompt's name has no override, so it cannot be `k`
            lemma_env_precedence_rec(rest, env, seen.push(k0), k);
            assert(k0 != k);
            assert forall|i: int|
                0 <= i < spec_prompts_rec(defaults, env, seen).len() implies spec_prompts_rec(
                defaults,
                env,
                seen,
            )[i].0 != k by {
                if i == 0 {
                    assert(spec_prompts_rec(defaults, env, seen)[0] == (k0, d0));
                } else {
                    assert(spec_prompts_rec(defaults, env, seen)[i] == spec_prompts_rec(
                        rest,
                        env,
                        seen.push(k0),
                    )[i - 1]);
                }
            }
        }
    }
}

} // verus!
