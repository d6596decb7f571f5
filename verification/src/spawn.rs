//! The environment a shell is started with: the colour capabilities the
//! terminal advertises, then the variables a saved host asks for.
use vstd::prelude::*;
use crate::text::{chars_of, is_whitespace, spec_is_whitespace, string_of};

verus! {

/// A name made of whitespace only (or empty).
pub open spec fn blank(s: Seq<char>) -> bool {
    forall|i: int| 0 <= i < s.len() ==> spec_is_whitespace(#[trigger] s[i])
}

/// The host's variables whose name is not blank, in order.
pub open spec fn kept_vars(env: Seq<(Seq<char>, Seq<char>)>) -> Seq<(Seq<char>, Seq<char>)>
    decreases env.len(),
{
    if env.len() == 0 {
        seq![]
    } else {
        let rest = kept_vars(env.drop_last());
        if blank(env.last().0) {
            rest
        } else {
            rest.push(env.last())
        }
    }
}

pub open spec fn term_var() -> (Seq<char>, Seq<char>) {
    (seq!['T', 'E', 'R', 'M'], seq!['x', 't', 'e', 'r', 'm', '-', '2', '5', '6', 'c', 'o', 'l', 'o', 'r'])
}

pub open spec fn colorterm_var() -> (Seq<char>, Seq<char>) {
    (
        seq!['C', 'O', 'L', 'O', 'R', 'T', 'E', 'R', 'M'],
        seq!['t', 'r', 'u', 'e', 'c', 'o', 'l', 'o', 'r'],
    )
}

/// The assignments applied to the child, in order (a later one overrides an
/// earlier one of the same name): `TERM=xterm-256color` and
/// `COLORTERM=truecolor` first, so a host that sets its own `TERM` wins,
/// then the host's variables with a non-blank name.
pub open spec fn spec_child_env(env: Seq<(Seq<char>, Seq<char>)>) -> Seq<(Seq<char>, Seq<char>)> {
    seq![term_var(), colorterm_var()] + kept_vars(env)
}

pub open spec fn views(v: Seq<(String, String)>) -> Seq<(Seq<char>, Seq<char>)> {
    v.map_values(|p: (String, String)| (p.0@, p.1@))
}

fn is_blank(s: &String) -> (r: bool)
    ensures
        r == blank(s@),
{
    let v = chars_of(s.as_str());
    let mut i: usize = 0;
    while i < v.len()
        invariant
            v@ == s@,
            i <= v@.len(),
            forall|k: int| 0 <= k < i ==> spec_is_whitespace(#[trigger] v@[k]),
        decreases v@.len() - i,
    {
        if !is_whitespace(v[i]) {
            return false;
        }
        i = i + 1;
    }
    true
}

fn owned(v: Vec<char>) -> (s: String)
    ensures
        s@ == v@,
{
    let n = v.len();
    let s = string_of(&v, 0, n);
    assert(v@.subrange(0, n as int) =~= v@);
    s
}

/// The environment assignments for a new shell: the terminal's colour
/// capabilities, then the host's variables, skipping any whose name is blank
/// (an empty or whitespace-only name cannot be set).
pub fn child_env(env: &Vec<(String, String)>) -> (r: Vec<(String, String)>)
    ensures
        views(r@) == spec_child_env(views(env@)),
{
    let mut r: Vec<(String, String)> = Vec::new();
    r.push((owned(vec!['T', 'E', 'R', 'M']), owned(vec!['x', 't', 'e', 'r', 'm', '-', '2', '5', '6', 'c', 'o', 'l', 'o', 'r'])));
    r.push((owned(vec!['C', 'O', 'L', 'O', 'R', 'T', 'E', 'R', 'M']), owned(vec!['t', 'r', 'u', 'e', 'c', 'o', 'l', 'o', 'r'])));
    let ghost head = views(r@);
    assert(head =~= seq![term_var(), colorterm_var()]);
    let mut i: usize = 0;
    assert(views(env@).take(0) =~= Seq::<(Seq<char>, Seq<char>)>::empty());
    while i < env.len()
        invariant
            i <= env@.len(),
            head == seq![term_var(), colorterm_var()],
            views(r@) == head + kept_vars(views(env@).take(i as int)),
        decreases env@.len() - i,
    {
        let ghost before = views(r@);
        let (name, value) = (env[i].0.clone(), env[i].1.clone());
        assert(views(env@).take(i + 1).drop_last() =~= views(env@).take(i as int));
        assert(views(env@).take(i + 1).last() == (env@[i as int].0@, env@[i as int].1@));
        if !is_blank(&name) {
            r.push((name, value));
            assert(views(r@) =~= before.push((env@[i as int].0@, env@[i as int].1@)));
        }
        i = i + 1;
    }
    assert(views(env@).take(env@.len() as int) =~= views(env@));
    r
}

} // verus!
