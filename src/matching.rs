use vstd::prelude::*;

verus! {

/// Shell-style wildcard matching: `*` matches any run of characters, `?`
/// exactly one, and every other character itself.
pub open spec fn glob_match(p: Seq<char>, s: Seq<char>) -> bool
    decreases p.len() + s.len(),
{
    if p.len() == 0 {
        s.len() == 0
    } else if p[0] == '*' {
        glob_match(p.drop_first(), s) || (s.len() > 0 && glob_match(p, s.drop_first()))
    } else if s.len() == 0 {
        false
    } else if p[0] == '?' || p[0] == s[0] {
        glob_match(p.drop_first(), s.drop_first())
    } else {
        false
    }
}

/// The pattern `*` matches every name.
pub proof fn lemma_star_matches_all(s: Seq<char>)
    ensures
        glob_match(seq!['*'], s),
    decreases s.len(),
{
    let p = seq!['*'];
    assert(p.drop_first() =~= Seq::<char>::empty());
    if s.len() > 0 {
        lemma_star_matches_all(s.drop_first());
    } else {
        assert(glob_match(p.drop_first(), s));
    }
}

/// Relies on wildmatch's `WildMatch::new` and `WildMatch::matches`: a
/// case-sensitive match in which `*` stands for any run of characters and `?`
/// for exactly one.
#[verifier::external_body]
pub(crate) fn wild_matches(pattern: &str, name: &str) -> (r: bool)
    ensures
        r == glob_match(pattern@, name@),
{
    wildmatch::WildMatch::new(pattern).matches(name)
}

} // verus!
