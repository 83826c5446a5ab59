//! Completing a path while it is typed.
use vstd::prelude::*;

use crate::order::{
    before, in_order, lemma_sorted_map, sorted, sorting_orders_and_keeps_all, stable_sort, Ranked,
};
use crate::paths::{join_path, path_join, path_key, RankedPath};
use crate::text::{characters, chain, lemma_texts_push, opt_text, starts_with, string_of, texts};

verus! {

/// How many completions are kept.
pub const MAX_COMPLETIONS: usize = 50;

/// The rank of a path among paths.
pub open spec fn path_rank() -> spec_fn(Seq<char>) -> Seq<int> {
    |p: Seq<char>| path_key(p)
}

/// A path with `~/` at its start replaced by the home directory, when there is one.
pub open spec fn expanded(input: Seq<char>, home: Option<Seq<char>>) -> Seq<char> {
    if "~/"@.is_prefix_of(input) && home is Some {
        path_join(home->0, input.skip(2))
    } else {
        input
    }
}

/// The glob pattern for the paths that go on from `input`; nothing typed has no completions.
pub open spec fn pattern_for(input: Seq<char>, home: Option<Seq<char>>) -> Option<Seq<char>> {
    if input.len() == 0 {
        None
    } else {
        Some(expanded(input, home) + "*"@)
    }
}

/// The completions that are kept: the first ones in the order of paths.
pub open spec fn kept_completions(matches: Seq<Seq<char>>) -> Seq<Seq<char>> {
    let all = sorted(matches, path_rank());
    if all.len() > MAX_COMPLETIONS {
        all.take(MAX_COMPLETIONS as int)
    } else {
        all
    }
}

/// Replaces `~/` at the start of a path by the home directory.
pub fn expand_home(input: &str, home: &Option<String>) -> (r: String)
    ensures
        r@ == expanded(input@, opt_text(*home)),
{
    if starts_with(input, "~/") {
        if let Some(h) = home {
            let chars = characters(input);
            let mut rest: Vec<char> = Vec::new();
            proof {
                reveal_strlit("~/");
            }
            for i in 2..chars.len()
                invariant
                    chars@ == input@,
                    input@.len() >= 2,
                    rest@ == input@.subrange(2, i as int),
            {
                rest.push(chars[i]);
                assert(rest@ =~= input@.subrange(2, i + 1));
            }
            assert(rest@ =~= input@.skip(2));
            return join_path(h.as_str(), string_of(&rest).as_str());
        }
    }
    input.to_owned()
}

/// The glob pattern for the paths that go on from what is typed.
pub fn completion_pattern(input: &str, home: &Option<String>) -> (r: Option<String>)
    ensures
        opt_text(r) == pattern_for(input@, opt_text(*home)),
{
    if input.is_empty() {
        return None;
    }
    let path = expand_home(input, home);
    Some(chain(path.as_str(), "*"))
}

/// Puts the paths that were found in order, and keeps the first of them.
pub fn keep_completions(matches: Vec<String>) -> (r: Vec<String>)
    ensures
        texts(r@) == kept_completions(texts(matches@)),
{
    let mut ranked: Vec<RankedPath> = Vec::new();
    let ghost view = |p: RankedPath| p.text@;
    for i in 0..matches.len()
        invariant
            view == |p: RankedPath| p.text@,
            ranked@.map_values(view) == texts(matches@).take(i as int),
    {
        let ghost before_push = ranked@;
        let p = RankedPath { text: matches[i].clone() };
        ranked.push(p);
        assert(ranked@.map_values(view) =~= before_push.map_values(view).push(p.text@));
        assert(texts(matches@).take(i + 1) =~= texts(matches@).take(i as int).push(
            matches@[i as int]@,
        ));
    }
    assert(texts(matches@).take(matches@.len() as int) =~= texts(matches@));
    let ghost rank = |p: RankedPath| p.rank();
    let ordered = stable_sort(ranked);
    proof {
        lemma_sorted_map(ranked@, rank, view, path_rank());
        sorting_orders_and_keeps_all(texts(matches@), path_rank());
    }
    let ghost all = sorted(texts(matches@), path_rank());
    let mut r: Vec<String> = Vec::new();
    let count = if ordered.len() > MAX_COMPLETIONS {
        MAX_COMPLETIONS
    } else {
        ordered.len()
    };
    for i in 0..count
        invariant
            count <= ordered@.len(),
            view == |p: RankedPath| p.text@,
            ordered@.map_values(view) == all,
            texts(r@) == all.take(i as int),
    {
        let s = ordered[i].text.clone();
        proof {
            lemma_texts_push(r@, s);
            assert(all[i as int] == view(ordered@[i as int]));
            assert(all.take(i + 1) =~= all.take(i as int).push(s@));
        }
        r.push(s);
    }
    assert(all.take(all.len() as int) =~= all);
    r
}

/// The completions are in the order of paths, no more than the limit, each of them found; and
/// none is left out while there is room.
pub proof fn completions_are_the_first_in_order(matches: Seq<Seq<char>>)
    ensures
        in_order(kept_completions(matches), path_rank()),
        kept_completions(matches).len() <= MAX_COMPLETIONS,
        forall|i: int|
            0 <= i < kept_completions(matches).len() ==> matches.contains(
                #[trigger] kept_completions(matches)[i],
            ),
        matches.len() <= MAX_COMPLETIONS ==> kept_completions(matches).to_multiset()
            == matches.to_multiset(),
{
    broadcast use vstd::seq_lib::group_to_multiset_ensures;

    sorting_orders_and_keeps_all(matches, path_rank());
    let all = sorted(matches, path_rank());
    let kept = kept_completions(matches);
    assert forall|i: int| 0 <= i < kept.len() implies matches.contains(#[trigger] kept[i]) by {
        assert(kept[i] == all[i]);
        assert(all.contains(all[i]));
        assert(all.to_multiset().count(all[i]) > 0);
        assert(matches.to_multiset().count(all[i]) > 0);
    }
    assert forall|i: int, j: int| 0 <= i < j < kept.len() implies !before(
        path_rank()(#[trigger] kept[j]),
        path_rank()(#[trigger] kept[i]),
    ) by {
        assert(kept[i] == all[i] && kept[j] == all[j]);
    }
}

/// `~/` at the start of a path is the home directory, where that is known, with the rest of the
/// path behind it; every other path stays as it is, also with a `~` elsewhere.
pub proof fn home_stands_for_its_sign(input: Seq<char>, rest: Seq<char>, home: Seq<char>)
    ensures
        expanded("~/"@ + rest, Some(home)) == path_join(home, rest),
        expanded(input, None) == input,
        input.len() < 2 || input[0] != '~' || input[1] != '/' ==> expanded(input, Some(home))
            == input,
{
    reveal_strlit("~/");
    let whole = "~/"@ + rest;
    assert(whole.subrange(0, 2) =~= "~/"@);
    assert(whole.skip(2) =~= rest);
    if "~/"@.is_prefix_of(input) {
        assert(input.subrange(0, 2)[0] == input[0] && input.subrange(0, 2)[1] == input[1]);
    }
}

/// The paths that go on from what is typed match it with a star behind; nothing typed has none.
pub proof fn patterns_end_with_a_star(input: Seq<char>, home: Option<Seq<char>>)
    ensures
        input.len() == 0 <==> pattern_for(input, home) is None,
        pattern_for(input, home) matches Some(pattern) ==> pattern.len() > 0 && pattern.last()
            == '*' && pattern.drop_last() == expanded(input, home),
{
    reveal_strlit("*");
    if input.len() > 0 {
        let pattern = pattern_for(input, home)->0;
        assert(pattern.drop_last() =~= expanded(input, home));
    }
}

/// Up to fifty completions are kept, all of them where there are no more; of more than fifty none
/// that is left out comes before one that is kept.
pub proof fn the_first_fifty_completions_are_kept(matches: Seq<Seq<char>>, path: Seq<char>, i: int)
    requires
        matches.contains(path),
    ensures
        kept_completions(matches).len() == if matches.len() <= 50 {
            matches.len()
        } else {
            50
        },
        0 <= i < kept_completions(matches).len() && !kept_completions(matches).contains(path)
            ==> !before(path_key(path), path_key(kept_completions(matches)[i])),
{
    broadcast use vstd::seq_lib::group_to_multiset_ensures;

    sorting_orders_and_keeps_all(matches, path_rank());
    let all = sorted(matches, path_rank());
    let kept = kept_completions(matches);
    assert(matches.to_multiset().count(path) > 0);
    assert(all.to_multiset().count(path) > 0);
    assert(all.contains(path));
    let at = choose|k: int| 0 <= k < all.len() && all[k] == path;
    if 0 <= i < kept.len() && !kept.contains(path) {
        assert(kept[i] == all[i]);
        if at < kept.len() {
            assert(kept[at] == path);
        }
        assert(!before(path_rank()(all[at]), path_rank()(all[i])));
    }
}

} // verus!
