//! Selection of the most specific alias whose expansion a command begins with.
use vstd::prelude::*;
use crate::registry::pairs_view;

verus! {

/// The command is the expansion itself, or the expansion followed by a space and more.
pub open spec fn alias_matches(command: Seq<char>, expansion: Seq<char>) -> bool {
    command == expansion || (command.len() > expansion.len() && command.subrange(
        0,
        expansion.len() as int,
    ) == expansion && command[expansion.len() as int] == ' ')
}

/// Definition `i` can be chosen: it matches, and its expansion is not empty.
pub open spec fn candidate(command: Seq<char>, defs: Seq<(Seq<char>, Seq<char>)>, i: int) -> bool {
    0 <= i < defs.len() && defs[i].1.len() > 0 && alias_matches(command, defs[i].1)
}

/// Definition `i` is chosen: every earlier candidate has a strictly shorter
/// expansion and no later one a longer expansion.
pub open spec fn is_best(command: Seq<char>, defs: Seq<(Seq<char>, Seq<char>)>, i: int) -> bool {
    &&& candidate(command, defs, i)
    &&& forall|j: int|
        0 <= j < i && #[trigger] candidate(command, defs, j) ==> defs[j].1.len() < defs[i].1.len()
    &&& forall|j: int|
        i < j < defs.len() && #[trigger] candidate(command, defs, j) ==> defs[j].1.len()
            <= defs[i].1.len()
}

/// The result of resolution: the chosen definition, or none when no definition is a candidate.
pub open spec fn resolves_to(
    command: Seq<char>,
    defs: Seq<(Seq<char>, Seq<char>)>,
    r: Option<(Seq<char>, Seq<char>)>,
) -> bool {
    match r {
        Some(p) => exists|i: int| is_best(command, defs, i) && defs[i] == p,
        None => forall|i: int| !candidate(command, defs, i),
    }
}

/// At most one definition is chosen for a command, so resolution has a single result.
pub proof fn lemma_best_unique(
    command: Seq<char>,
    defs: Seq<(Seq<char>, Seq<char>)>,
    i: int,
    k: int,
)
    requires
        is_best(command, defs, i),
        is_best(command, defs, k),
    ensures
        i == k,
{
    if i < k {
        assert(candidate(command, defs, i));
    } else if k < i {
        assert(candidate(command, defs, k));
    }
}

/// The chosen expansion is at least as long as that of every matching definition.
pub proof fn lemma_longest_wins(
    command: Seq<char>,
    defs: Seq<(Seq<char>, Seq<char>)>,
    k: int,
    j: int,
)
    requires
        is_best(command, defs, k),
        candidate(command, defs, j),
    ensures
        defs[j].1.len() <= defs[k].1.len(),
{
}

/// Of two matching definitions with expansions of equal length, the later one is
/// never chosen.
pub proof fn lemma_equal_length_earliest_wins(
    command: Seq<char>,
    defs: Seq<(Seq<char>, Seq<char>)>,
    i: int,
    j: int,
)
    requires
        i < j,
        candidate(command, defs, i),
        candidate(command, defs, j),
        defs[i].1.len() == defs[j].1.len(),
    ensures
        !is_best(command, defs, j),
{
}

/// The view of an optional `(name, expansion)` pair.
pub open spec fn option_view(r: Option<(String, String)>) -> Option<(Seq<char>, Seq<char>)> {
    match r {
        Some(p) => Some((p.0@, p.1@)),
        None => None,
    }
}

/// Whether `command` is `expansion`, or starts with `expansion` and a space.
pub fn matches_alias(command: &str, expansion: &str) -> (r: bool)
    ensures
        r == alias_matches(command@, expansion@),
{
    let n = command.unicode_len();
    let m = expansion.unicode_len();
    if n < m {
        return false;
    }
    let mut i: usize = 0;
    while i < m
        invariant
            m == expansion@.len(),
            n == command@.len(),
            m <= n,
            i <= m,
            command@.subrange(0, i as int) == expansion@.subrange(0, i as int),
        decreases m - i,
    {
        if command.get_char(i) != expansion.get_char(i) {
            assert(command@.subrange(0, m as int)[i as int] != expansion@[i as int]);
            return false;
        }
        assert(command@.subrange(0, i + 1) =~= expansion@.subrange(0, i + 1));
        i = i + 1;
    }
    assert(expansion@.subrange(0, m as int) == expansion@);
    if n == m {
        assert(command@ =~= expansion@);
        true
    } else {
        command.get_char(m) == ' '
    }
}

/// The alias with the longest expansion that `command` matches; among equally long
/// ones the earliest. An empty expansion is never chosen.
pub fn find_best_alias(command: &str, aliases: &[(String, String)]) -> (r: Option<(String, String)>)
    ensures
        resolves_to(command@, pairs_view(aliases@), option_view(r)),
        aliases@.len() == 0 ==> r is None,
{
    let ghost defs = pairs_view(aliases@);
    let mut best_match: Option<(String, String)> = None;
    let mut best_match_len: usize = 0;
    let ghost mut best_index: int = -1;
    let mut i: usize = 0;
    while i < aliases.len()
        invariant
            i <= aliases@.len(),
            defs == pairs_view(aliases@),
            best_match is None <==> best_index == -1,
            best_match is None ==> best_match_len == 0,
            best_match is None ==> forall|j: int| 0 <= j < i ==> !candidate(command@, defs, j),
            best_match matches Some(p) ==> {
                &&& 0 <= best_index < i
                &&& candidate(command@, defs, best_index)
                &&& defs[best_index] == (p.0@, p.1@)
                &&& best_match_len == p.1@.len()
                &&& forall|j: int|
                    0 <= j < best_index && #[trigger] candidate(command@, defs, j)
                        ==> defs[j].1.len() < best_match_len
                &&& forall|j: int|
                    best_index < j < i && #[trigger] candidate(command@, defs, j)
                        ==> defs[j].1.len() <= best_match_len
            },
        decreases aliases@.len() - i,
    {
        let alias_name = &aliases[i].0;
        let alias_value = &aliases[i].1;
        assert(defs[i as int] == (alias_name@, alias_value@));
        if matches_alias(command, alias_value.as_str()) {
            let len = alias_value.as_str().unicode_len();
            if len > best_match_len {
                best_match = Some((alias_name.clone(), alias_value.clone()));
                best_match_len = len;
                proof {
                    best_index = i as int;
                }
            }
        }
        i = i + 1;
    }
    proof {
        if best_match is Some {
            assert(is_best(command@, defs, best_index));
        }
    }
    best_match
}

} // verus!
